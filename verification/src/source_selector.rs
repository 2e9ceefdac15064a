//! Monitors, and which NDI source each of them shows.

use crate::config::{Config, ScreenConfig};
use crate::ndi::{same_batch, NdiSource};
use crate::tables::{
    slot_view,
    monitor_table, monitor_table_contains, monitor_table_entries, monitor_table_insert,
    monitor_table_remove, new_monitor_table, new_source_table, source_table, source_table_clear,
    source_table_get, source_table_insert, MonitorSlot,
};
use dashmap::DashMap;
use vstd::prelude::*;
use vstd::std_specs::cmp::PartialEqSpec;
use vstd::std_specs::convert::FromSpec;

verus! {

/// A monitor, known by its name; once a window has been opened on it, it
/// also carries that window's handle. Two `MonitorId`s are equal when their
/// names are, whatever window they carry.
#[derive(Debug)]
pub struct MonitorId {
    name: String,
    window_id: Option<u64>,
}

impl View for MonitorId {
    /// The name's characters and the window handle.
    type V = (Seq<char>, Option<u64>);

    closed spec fn view(&self) -> (Seq<char>, Option<u64>) {
        (self.name@, self.window_id)
    }
}

impl MonitorId {
    /// The monitor that the windowing system reports, by the name it reports
    /// for it; a monitor that reports no name gets the empty name.
    pub fn from_monitor_name(name: Option<String>) -> (id: MonitorId)
        ensures
            id@.0 == (match name {
                Some(n) => n@,
                None => Seq::<char>::empty(),
            }),
            id@.1 is None,
    {
        let name = match name {
            Some(n) => n,
            None => String::new(),
        };
        MonitorId { name, window_id: None }
    }

    /// The monitor's name.
    pub fn name(&self) -> (name: &str)
        ensures
            name@ == self@.0,
    {
        self.name.as_str()
    }

    /// The monitor's name, as its display form.
    pub fn to_string(&self) -> (text: String)
        ensures
            text@ == self@.0,
    {
        self.name.clone()
    }

    /// The handle of the window opened on this monitor.
    pub fn window_id(&self) -> (window_id: u64)
        requires
            self@.1 is Some,
        ensures
            self@.1 == Some(window_id),
    {
        match self.window_id {
            Some(w) => w,
            None => 0,
        }
    }

    /// Whether a window has been opened on this monitor.
    pub fn has_window_handle(&self) -> (has: bool)
        ensures
            has == self@.1 is Some,
    {
        self.window_id.is_some()
    }

    /// The same monitor, now carrying the handle of the window opened on it.
    pub fn with_handle(self, window_id: u64) -> (id: MonitorId)
        ensures
            id@ == (self@.0, Some(window_id)),
    {
        MonitorId { window_id: Some(window_id), ..self }
    }

    /// Whether this id names the monitor that the windowing system reports
    /// by this name (no name counts as the empty name).
    pub fn is_monitor_named(&self, name: Option<String>) -> (same: bool)
        ensures
            same == (self@.0 == match name {
                Some(n) => n@,
                None => Seq::<char>::empty(),
            }),
    {
        let name = match name {
            Some(n) => n,
            None => String::new(),
        };
        self.name == name
    }

    /// Whether two ids name the same monitor.
    pub open spec fn same_monitor(&self, other: &MonitorId) -> bool {
        self@.0 == other@.0
    }
}

impl Clone for MonitorId {
    fn clone(&self) -> (id: MonitorId)
        ensures
            id@ == self@,
    {
        MonitorId { name: self.name.clone(), window_id: self.window_id }
    }
}

impl PartialEq for MonitorId {
    fn eq(&self, other: &MonitorId) -> (same: bool) {
        self.name == other.name
    }
}

impl vstd::std_specs::cmp::PartialEqSpecImpl for MonitorId {
    open spec fn obeys_eq_spec() -> bool {
        true
    }

    open spec fn eq_spec(&self, other: &MonitorId) -> bool {
        self.same_monitor(other)
    }
}

impl Eq for MonitorId {}

impl From<String> for MonitorId {
    fn from(name: String) -> (id: MonitorId)
        ensures
            id@ == (name@, None::<u64>),
    {
        MonitorId { name, window_id: None }
    }
}

impl vstd::std_specs::convert::FromSpecImpl<String> for MonitorId {
    open spec fn obeys_from_spec() -> bool {
        true
    }

    closed spec fn from_spec(name: String) -> MonitorId {
        MonitorId { name, window_id: None }
    }
}

impl From<MonitorId> for String {
    fn from(id: MonitorId) -> (name: String)
        ensures
            name@ == id@.0,
    {
        id.name
    }
}

impl vstd::std_specs::convert::FromSpecImpl<MonitorId> for String {
    open spec fn obeys_from_spec() -> bool {
        true
    }

    closed spec fn from_spec(id: MonitorId) -> String {
        id.name
    }
}

/// Whether some id in the list names the same monitor as `id`.
pub(crate) fn contains_monitor(ids: &Vec<MonitorId>, id: &MonitorId) -> (found: bool)
    ensures
        found == exists|j: int| 0 <= j < ids.len() && #[trigger] ids[j]@.0 == id@.0,
{
    let mut j: usize = 0;
    while j < ids.len()
        invariant
            j <= ids.len(),
            forall|k: int| 0 <= k < j ==> #[trigger] ids[k]@.0 != id@.0,
        decreases ids.len() - j,
    {
        if ids[j].name == id.name {
            assert(ids[j as int]@.0 == id@.0);
            return true;
        }
        j = j + 1;
    }
    false
}

/// The monitor table that a list of screens configures: screen by screen,
/// each monitor gets the source of the screen; a monitor that an earlier
/// screen already named keeps the window it was first entered with.
pub open spec fn screen_table(screens: Seq<ScreenConfig>) -> Map<Seq<char>, (Option<u64>, Seq<char>)>
    decreases screens.len(),
{
    if screens.len() == 0 {
        Map::empty()
    } else {
        let table = screen_table(screens.drop_last());
        let screen = screens.last();
        let window = if table.contains_key(screen.monitor@.0) {
            table[screen.monitor@.0].0
        } else {
            screen.monitor@.1
        };
        table.insert(screen.monitor@.0, (window, screen.source@))
    }
}

/// The monitor table that an optional configuration sets up.
pub open spec fn configured_table(config: Option<Config>) -> Map<Seq<char>, (Option<u64>, Seq<char>)> {
    match config {
        Some(c) => screen_table(c.screens@),
        None => Map::empty(),
    }
}

/// The source table that a list of discovered sources makes: source by
/// source, each name gets the handle of the source; a later source of the
/// same name replaces an earlier one.
pub open spec fn source_list_table(sources: Seq<NdiSource>) -> Map<Seq<char>, u64>
    decreases sources.len(),
{
    if sources.len() == 0 {
        Map::empty()
    } else {
        source_list_table(sources.drop_last()).insert(sources.last().name@, sources.last().source)
    }
}

/// The monitor table after the window of `id` is recorded: a configured
/// monitor of that name keeps its source and now carries the window of `id`;
/// a table without that name stays as it is.
pub open spec fn record_window(
    table: Map<Seq<char>, (Option<u64>, Seq<char>)>,
    id: (Seq<char>, Option<u64>),
) -> Map<Seq<char>, (Option<u64>, Seq<char>)> {
    if table.contains_key(id.0) {
        table.insert(id.0, (id.1, table[id.0].1))
    } else {
        table
    }
}

/// The monitor table after the windows of `ids` are recorded, one after the
/// other.
pub open spec fn record_windows(
    table: Map<Seq<char>, (Option<u64>, Seq<char>)>,
    ids: Seq<(Seq<char>, Option<u64>)>,
) -> Map<Seq<char>, (Option<u64>, Seq<char>)>
    decreases ids.len(),
{
    if ids.len() == 0 {
        table
    } else {
        record_window(record_windows(table, ids.drop_last()), ids.last())
    }
}

/// Which monitor shows which source, and which sources are on the network
/// now.
pub struct SourceSelector {
    monitor_sources: DashMap<String, MonitorSlot>,
    sources: DashMap<String, u64>,
}

impl SourceSelector {
    /// The configured monitors: for each monitor name, the window opened on
    /// it (if any) and the name of the source it shows.
    pub closed spec fn monitors(&self) -> Map<Seq<char>, (Option<u64>, Seq<char>)> {
        monitor_table(self.monitor_sources)
    }

    /// The sources on the network now: for each source name, its handle.
    pub closed spec fn sources(&self) -> Map<Seq<char>, u64> {
        source_table(self.sources)
    }

    /// Whether the monitor of this name is configured and its source is on
    /// the network.
    pub open spec fn has_target(&self, name: Seq<char>) -> bool {
        &&& self.monitors().contains_key(name)
        &&& self.sources().contains_key(self.monitors()[name].1)
    }

    /// Whether showing the source of this handle on this monitor (name and
    /// window) is what the tables ask for.
    pub open spec fn is_target(&self, id: (Seq<char>, Option<u64>), handle: u64) -> bool {
        &&& self.has_target(id.0)
        &&& self.monitors()[id.0].0 == id.1
        &&& self.sources()[self.monitors()[id.0].1] == handle
    }

    /// Whether `r` lists the targets, as `targets` returns them: each
    /// element is a target, every monitor with a target is in it, and no
    /// monitor twice.
    pub open spec fn lists_targets(&self, r: Seq<(MonitorId, u64)>) -> bool {
        &&& forall|j: int| 0 <= j < r.len() ==> #[trigger] self.is_target(r[j].0@, r[j].1)
        &&& forall|name: Seq<char>| #[trigger] self.has_target(name)
            ==> exists|j: int| 0 <= j < r.len() && #[trigger] r[j].0@.0 == name
        &&& forall|j: int, k: int| 0 <= j < k < r.len() ==> r[j].0@.0 != r[k].0@.0
    }

    /// Whether a source is configured for this monitor.
    pub fn is_configured(&self, monitor_id: &MonitorId) -> (configured: bool)
        ensures
            configured == self.monitors().contains_key(monitor_id@.0),
    {
        monitor_table_contains(&self.monitor_sources, monitor_id.name.as_str())
    }

    /// A selector for the monitors that the configuration names, with no
    /// source on the network yet.
    pub fn new(config: Option<Config>) -> (selector: SourceSelector)
        ensures
            selector.monitors() == configured_table(config),
            selector.sources().dom().is_empty(),
    {
        let mut monitor_sources = new_monitor_table();
        match config {
            Some(config) => {
                let screens = config.screens;
                let mut i: usize = 0;
                while i < screens.len()
                    invariant
                        i <= screens.len(),
                        monitor_table(monitor_sources) == screen_table(screens@.take(i as int)),
                    decreases screens.len() - i,
                {
                    let screen = &screens[i];
                    let previous = monitor_table_insert(
                        &mut monitor_sources,
                        screen.monitor.name.clone(),
                        (screen.monitor.window_id, screen.source.clone()),
                    );
                    if let Some((window, _)) = previous {
                        // an entry for this monitor stays keyed as it was first entered
                        monitor_table_insert(
                            &mut monitor_sources,
                            screen.monitor.name.clone(),
                            (window, screen.source.clone()),
                        );
                    }
                    proof {
                        assert(screens@.take(i + 1).drop_last() == screens@.take(i as int));
                    }
                    i = i + 1;
                }
                proof {
                    assert(screens@.take(screens@.len() as int) == screens@);
                }
            },
            None => {},
        }
        SourceSelector { monitor_sources, sources: new_source_table() }
    }

    /// The monitor/source pairs to show: every configured monitor whose
    /// source is on the network now, once each, with the window it carries;
    /// in no particular order.
    pub fn targets(&self) -> (targets: Vec<(MonitorId, u64)>)
        ensures
            forall|j: int| 0 <= j < targets.len() ==> #[trigger] self.is_target(targets[j].0@, targets[j].1),
            forall|name: Seq<char>| #[trigger] self.has_target(name)
                ==> exists|j: int| 0 <= j < targets.len() && #[trigger] targets[j].0@.0 == name,
            forall|j: int, k: int| 0 <= j < k < targets.len() ==> targets[j].0@.0 != targets[k].0@.0,
    {
        let entries = monitor_table_entries(&self.monitor_sources);
        let mut targets: Vec<(MonitorId, u64)> = Vec::new();
        let mut i: usize = 0;
        while i < entries.len()
            invariant
                i <= entries.len(),
                forall|k: int| #![trigger entries[k]] 0 <= k < entries.len() ==> monitor_table(self.monitor_sources).contains_key(entries[k].0@)
                    && monitor_table(self.monitor_sources)[entries[k].0@] == slot_view(entries[k].1),
                forall|k: int, l: int| 0 <= k < l < entries.len() ==> entries[k].0@ != entries[l].0@,
                forall|j: int| 0 <= j < targets.len() ==> #[trigger] self.is_target(targets[j].0@, targets[j].1),
                forall|j: int| #![trigger targets[j]] 0 <= j < targets.len()
                    ==> exists|k: int| 0 <= k < i && #[trigger] entries[k].0@ == targets[j].0@.0,
                forall|k: int| 0 <= k < i && #[trigger] self.has_target(entries[k].0@)
                    ==> exists|j: int| 0 <= j < targets.len() && targets[j].0@.0 == entries[k].0@,
                forall|j: int, k: int| 0 <= j < k < targets.len() ==> targets[j].0@.0 != targets[k].0@.0,
            decreases entries.len() - i,
        {
            let entry = &entries[i];
            match source_table_get(&self.sources, entry.1.1.as_str()) {
                Some(handle) => {
                    let id = MonitorId { name: entry.0.clone(), window_id: entry.1.0 };
                    let ghost old_targets = targets@;
                    targets.push((id, handle));
                    proof {
                        assert(targets[targets.len() - 1].0@.0 == entries[i as int].0@);
                        assert(monitor_table(self.monitor_sources).contains_key(entries[i as int].0@));
                        assert(self.is_target(targets[targets.len() - 1].0@, handle));
                        assert forall|j: int| 0 <= j < targets.len() implies #[trigger] self.is_target(targets[j].0@, targets[j].1) by {
                            if j < old_targets.len() {
                                assert(targets[j] == old_targets[j]);
                            }
                        }
                        assert forall|j: int| #![trigger targets[j]] 0 <= j < targets.len() implies
                            exists|k: int| 0 <= k < i + 1 && #[trigger] entries[k].0@ == targets[j].0@.0 by {
                            if j < old_targets.len() {
                                assert(targets[j] == old_targets[j]);
                            } else {
                                assert(entries[i as int].0@ == targets[j].0@.0);
                            }
                        }
                        assert forall|j: int, k: int| 0 <= j < k < targets.len() implies
                            targets[j].0@.0 != targets[k].0@.0 by {
                            if k == targets.len() - 1 {
                                assert(targets[j] == old_targets[j]);
                                let l = choose|l: int| 0 <= l < i && #[trigger] entries[l].0@ == old_targets[j].0@.0;
                                assert(entries[l].0@ != entries[i as int].0@);
                            } else {
                                assert(targets[j] == old_targets[j]);
                                assert(targets[k] == old_targets[k]);
                            }
                        }
                        assert forall|k: int| 0 <= k < i + 1 && #[trigger] self.has_target(entries[k].0@) implies
                            exists|j: int| 0 <= j < targets.len() && targets[j].0@.0 == entries[k].0@ by {
                            if k < i {
                                let j = choose|j: int| 0 <= j < old_targets.len() && old_targets[j].0@.0 == entries[k].0@;
                                assert(targets[j] == old_targets[j]);
                            } else {
                                assert(targets[targets.len() - 1].0@.0 == entries[k].0@);
                            }
                        }
                    }
                },
                None => {
                    proof {
                        assert forall|j: int| #![trigger targets[j]] 0 <= j < targets.len() implies
                            exists|k: int| 0 <= k < i + 1 && #[trigger] entries[k].0@ == targets[j].0@.0 by {
                            let k = choose|k: int| 0 <= k < i && #[trigger] entries[k].0@ == targets[j].0@.0;
                            assert(entries[k].0@ == targets[j].0@.0);
                        }
                    }
                },
            }
            i = i + 1;
        }
        proof {
            assert forall|name: Seq<char>| #[trigger] self.has_target(name) implies
                exists|j: int| 0 <= j < targets.len() && #[trigger] targets[j].0@.0 == name by {
                assert(self.monitors().contains_key(name));
                let k = choose|k: int| 0 <= k < entries.len() && #[trigger] entries[k].0@ == name;
                assert(self.has_target(entries[k].0@));
            }
        }
        targets
    }

    /// Records the window now opened on a monitor: a configured monitor keeps
    /// its source and now carries the window of `monitor_id`; nothing else
    /// changes, and nothing at all when the monitor is not configured.
    pub fn update_monitor(&mut self, monitor_id: MonitorId)
        ensures
            final(self).monitors() == record_window(old(self).monitors(), monitor_id@),
            final(self).monitors().dom() == old(self).monitors().dom(),
            final(self).sources() == old(self).sources(),
    {
        if let Some((_, slot)) = monitor_table_remove(&mut self.monitor_sources, monitor_id.name.as_str()) {
            monitor_table_insert(&mut self.monitor_sources, monitor_id.name, (monitor_id.window_id, slot.1));
            proof {
                assert(monitor_table(self.monitor_sources) =~= old(self).monitors().insert(
                    monitor_id@.0,
                    (monitor_id@.1, old(self).monitors()[monitor_id@.0].1),
                ));
            }
        }
    }

    /// Replaces the sources on the network with those just discovered; the
    /// monitors are untouched.
    pub fn update_available_sources(&mut self, sources: Vec<NdiSource>)
        ensures
            final(self).sources() == source_list_table(sources@),
            final(self).monitors() == old(self).monitors(),
    {
        source_table_clear(&mut self.sources);
        let mut i: usize = 0;
        while i < sources.len()
            invariant
                i <= sources.len(),
                source_table(self.sources) == source_list_table(sources@.take(i as int)),
                monitor_table(self.monitor_sources) == old(self).monitors(),
            decreases sources.len() - i,
        {
            let source = &sources[i];
            source_table_insert(&mut self.sources, source.name.clone(), source.source);
            proof {
                assert(sources@.take(i + 1).drop_last() == sources@.take(i as int));
            }
            i = i + 1;
        }
        proof {
            assert(sources@.take(sources@.len() as int) == sources@);
        }
    }
}


/// A monitor is configured exactly when some screen of the configuration
/// names it; it shows the source of the last screen that names it, and keeps
/// the window of the first.
pub proof fn lemma_screen_table(screens: Seq<ScreenConfig>, name: Seq<char>)
    ensures
        screen_table(screens).contains_key(name)
            <==> exists|i: int| 0 <= i < screens.len() && #[trigger] screens[i].monitor@.0 == name,
        screen_table(screens).contains_key(name) ==> exists|i: int|
            0 <= i < screens.len() && #[trigger] screens[i].monitor@.0 == name
            && screen_table(screens)[name].1 == screens[i].source@
            && forall|j: int| i < j < screens.len() ==> #[trigger] screens[j].monitor@.0 != name,
        screen_table(screens).contains_key(name) ==> exists|i: int|
            0 <= i < screens.len() && #[trigger] screens[i].monitor@.0 == name
            && screen_table(screens)[name].0 == screens[i].monitor@.1
            && forall|j: int| 0 <= j < i ==> #[trigger] screens[j].monitor@.0 != name,
    decreases screens.len(),
{
    if screens.len() > 0 {
        let rest = screens.drop_last();
        let n = screens.len() - 1;
        lemma_screen_table(rest, name);
        assert forall|i: int| 0 <= i < rest.len() implies #[trigger] rest[i] == screens[i] by {}
        if screens[n].monitor@.0 == name {
            assert(screens[n].monitor@.0 == name);
            if rest.len() > 0 && screen_table(rest).contains_key(name) {
                let i = choose|i: int| 0 <= i < rest.len() && #[trigger] rest[i].monitor@.0 == name
                    && screen_table(rest)[name].0 == rest[i].monitor@.1
                    && forall|j: int| 0 <= j < i ==> #[trigger] rest[j].monitor@.0 != name;
                assert(screens[i].monitor@.0 == name);
                assert forall|j: int| 0 <= j < i implies #[trigger] screens[j].monitor@.0 != name by {
                    assert(rest[j] == screens[j]);
                }
            } else {
                assert forall|j: int| 0 <= j < n implies #[trigger] screens[j].monitor@.0 != name by {
                    assert(rest[j] == screens[j]);
                }
            }
        } else {
            if screen_table(rest).contains_key(name) {
                let i = choose|i: int| 0 <= i < rest.len() && #[trigger] rest[i].monitor@.0 == name
                    && screen_table(rest)[name].1 == rest[i].source@
                    && forall|j: int| i < j < rest.len() ==> #[trigger] rest[j].monitor@.0 != name;
                assert(screens[i].monitor@.0 == name);
                assert forall|j: int| i < j < screens.len() implies #[trigger] screens[j].monitor@.0 != name by {
                    if j < n {
                        assert(rest[j] == screens[j]);
                    }
                }
                let f = choose|f: int| 0 <= f < rest.len() && #[trigger] rest[f].monitor@.0 == name
                    && screen_table(rest)[name].0 == rest[f].monitor@.1
                    && forall|j: int| 0 <= j < f ==> #[trigger] rest[j].monitor@.0 != name;
                assert(screens[f].monitor@.0 == name);
                assert forall|j: int| 0 <= j < f implies #[trigger] screens[j].monitor@.0 != name by {
                    assert(rest[j] == screens[j]);
                }
            } else {
                assert forall|i: int| 0 <= i < screens.len() implies #[trigger] screens[i].monitor@.0 != name by {
                    if i < n {
                        assert(rest[i] == screens[i]);
                    }
                }
            }
        }
    }
}

/// A source name is on the network exactly when some discovered source has
/// it, and it stands for the handle of the last source of that name.
pub proof fn lemma_source_list_table(sources: Seq<NdiSource>, name: Seq<char>)
    ensures
        source_list_table(sources).contains_key(name)
            <==> exists|i: int| 0 <= i < sources.len() && #[trigger] sources[i].name@ == name,
        source_list_table(sources).contains_key(name) ==> exists|i: int|
            0 <= i < sources.len() && #[trigger] sources[i].name@ == name
            && source_list_table(sources)[name] == sources[i].source
            && forall|j: int| i < j < sources.len() ==> #[trigger] sources[j].name@ != name,
    decreases sources.len(),
{
    if sources.len() > 0 {
        let rest = sources.drop_last();
        let n = sources.len() - 1;
        lemma_source_list_table(rest, name);
        assert forall|i: int| 0 <= i < rest.len() implies #[trigger] rest[i] == sources[i] by {}
        if sources[n].name@ == name {
            assert(sources[n].name@ == name);
        } else if source_list_table(rest).contains_key(name) {
            let i = choose|i: int| 0 <= i < rest.len() && #[trigger] rest[i].name@ == name
                && source_list_table(rest)[name] == rest[i].source
                && forall|j: int| i < j < rest.len() ==> #[trigger] rest[j].name@ != name;
            assert(sources[i].name@ == name);
            assert forall|j: int| i < j < sources.len() implies #[trigger] sources[j].name@ != name by {
                if j < n {
                    assert(rest[j] == sources[j]);
                }
            }
        } else {
            assert forall|i: int| 0 <= i < sources.len() implies #[trigger] sources[i].name@ != name by {
                if i < n {
                    assert(rest[i] == sources[i]);
                }
            }
        }
    }
}

/// Recording windows changes no monitor's configuration or source; a
/// configured monitor carries the window of the last recorded id of its name,
/// or the window it had when no id of its name was recorded.
pub proof fn lemma_record_windows(
    table: Map<Seq<char>, (Option<u64>, Seq<char>)>,
    ids: Seq<(Seq<char>, Option<u64>)>,
    name: Seq<char>,
)
    ensures
        record_windows(table, ids).dom() == table.dom(),
        table.contains_key(name) ==> record_windows(table, ids)[name].1 == table[name].1,
        table.contains_key(name) && (exists|k: int| 0 <= k < ids.len() && #[trigger] ids[k].0 == name)
            ==> exists|k: int| 0 <= k < ids.len() && #[trigger] ids[k].0 == name
                && record_windows(table, ids)[name].0 == ids[k].1
                && forall|j: int| k < j < ids.len() ==> #[trigger] ids[j].0 != name,
        table.contains_key(name) && !(exists|k: int| 0 <= k < ids.len() && #[trigger] ids[k].0 == name)
            ==> record_windows(table, ids)[name].0 == table[name].0,
    decreases ids.len(),
{
    if ids.len() > 0 {
        let rest = ids.drop_last();
        let n = ids.len() - 1;
        lemma_record_windows(table, rest, name);
        assert forall|i: int| 0 <= i < rest.len() implies #[trigger] rest[i] == ids[i] by {}
        let before = record_windows(table, rest);
        assert(record_windows(table, ids) == record_window(before, ids[n]));
        assert(record_windows(table, ids).dom() =~= table.dom());
        if table.contains_key(name) {
            if ids[n].0 == name {
                assert(ids[n].0 == name);
            } else if exists|k: int| 0 <= k < rest.len() && #[trigger] rest[k].0 == name {
                let k = choose|k: int| 0 <= k < rest.len() && #[trigger] rest[k].0 == name
                    && before[name].0 == rest[k].1
                    && forall|j: int| k < j < rest.len() ==> #[trigger] rest[j].0 != name;
                assert(ids[k].0 == name);
                assert forall|j: int| k < j < ids.len() implies #[trigger] ids[j].0 != name by {
                    if j < n {
                        assert(rest[j] == ids[j]);
                    }
                }
            } else {
                assert forall|k: int| 0 <= k < ids.len() implies #[trigger] ids[k].0 != name by {
                    if k < n {
                        assert(rest[k] == ids[k]);
                    }
                }
            }
        }
    }
}

/// Over a whole run: a selector made from a configuration, after the
/// windows `ids` are recorded (in order) and the latest discovery batch is
/// `batch` (empty before the first), shows a monitor exactly when some screen
/// names it and the batch has a source of the name of the last such screen;
/// it shows that source's last handle in the batch, in the window last
/// recorded for the monitor (or the one of the first screen naming it, when
/// none was recorded). With the `ensures` of `targets`, this fixes the
/// targets of every such selector.
pub proof fn lemma_targets_over_a_run(
    selector: &SourceSelector,
    screens: Seq<ScreenConfig>,
    ids: Seq<(Seq<char>, Option<u64>)>,
    batch: Seq<NdiSource>,
    name: Seq<char>,
)
    requires
        selector.monitors() == record_windows(screen_table(screens), ids),
        selector.sources() == source_list_table(batch),
    ensures
        selector.monitors().contains_key(name)
            <==> exists|i: int| 0 <= i < screens.len() && #[trigger] screens[i].monitor@.0 == name,
        selector.monitors().contains_key(name) ==> exists|i: int|
            0 <= i < screens.len() && #[trigger] screens[i].monitor@.0 == name
            && selector.monitors()[name].1 == screens[i].source@
            && forall|j: int| i < j < screens.len() ==> #[trigger] screens[j].monitor@.0 != name,
        selector.monitors().contains_key(name) && (exists|k: int| 0 <= k < ids.len() && #[trigger] ids[k].0 == name)
            ==> exists|k: int| 0 <= k < ids.len() && #[trigger] ids[k].0 == name
                && selector.monitors()[name].0 == ids[k].1
                && forall|j: int| k < j < ids.len() ==> #[trigger] ids[j].0 != name,
        selector.monitors().contains_key(name) && !(exists|k: int| 0 <= k < ids.len() && #[trigger] ids[k].0 == name)
            ==> exists|i: int| 0 <= i < screens.len() && #[trigger] screens[i].monitor@.0 == name
                && selector.monitors()[name].0 == screens[i].monitor@.1
                && forall|j: int| 0 <= j < i ==> #[trigger] screens[j].monitor@.0 != name,
        selector.has_target(name) <==> selector.monitors().contains_key(name) && exists|k: int|
            0 <= k < batch.len() && #[trigger] batch[k].name@ == selector.monitors()[name].1,
        selector.has_target(name) ==> exists|k: int|
            0 <= k < batch.len() && #[trigger] batch[k].name@ == selector.monitors()[name].1
            && selector.sources()[selector.monitors()[name].1] == batch[k].source
            && forall|j: int| k < j < batch.len() ==> #[trigger] batch[j].name@ != selector.monitors()[name].1,
{
    lemma_screen_table(screens, name);
    lemma_record_windows(screen_table(screens), ids, name);
    lemma_source_list_table(batch, selector.monitors()[name].1);
}

/// After a discovery batch replaces the sources, a monitor has a target
/// exactly when it is configured and some source of the batch has the name
/// of its configured source.
pub proof fn lemma_target_after_discovery(
    before: &SourceSelector,
    after: &SourceSelector,
    sources: Seq<NdiSource>,
    name: Seq<char>,
)
    requires
        after.monitors() == before.monitors(),
        after.sources() == source_list_table(sources),
    ensures
        after.has_target(name) <==> before.monitors().contains_key(name) && exists|i: int|
            0 <= i < sources.len() && #[trigger] sources[i].name@ == before.monitors()[name].1,
{
    lemma_source_list_table(sources, before.monitors()[name].1);
}

/// The view of a list of targets: each monitor by its view, with its handle.
pub open spec fn target_views(r: Seq<(MonitorId, u64)>) -> Seq<((Seq<char>, Option<u64>), u64)> {
    r.map_values(|t: (MonitorId, u64)| (t.0@, t.1))
}

/// Any two lists of the targets of one selector (such as the results of two
/// calls of `targets`, which leave the selector as it is) hold the same
/// targets, each once: they are permutations of each other.
pub proof fn lemma_target_lists_agree(selector: &SourceSelector, a: Seq<(MonitorId, u64)>, b: Seq<(MonitorId, u64)>)
    requires
        selector.lists_targets(a),
        selector.lists_targets(b),
    ensures
        a.len() == b.len(),
        target_views(a).no_duplicates(),
        target_views(b).no_duplicates(),
        target_views(a).to_set() == target_views(b).to_set(),
        target_views(a).to_multiset() == target_views(b).to_multiset(),
{
    lemma_target_list_within(selector, a, b);
    lemma_target_list_within(selector, b, a);
    let (va, vb) = (target_views(a), target_views(b));
    assert(va.to_set() =~= vb.to_set());
    va.unique_seq_to_set();
    vb.unique_seq_to_set();
    va.lemma_multiset_has_no_duplicates();
    vb.lemma_multiset_has_no_duplicates();
    assert forall|x: ((Seq<char>, Option<u64>), u64)| #[trigger] va.to_multiset().count(x) == vb.to_multiset().count(x) by {
        broadcast use vstd::seq_lib::group_to_multiset_ensures;
        if va.to_multiset().contains(x) {
            assert(va.contains(x));
            assert(vb.to_set().contains(x));
            assert(vb.contains(x));
            assert(vb.to_multiset().contains(x));
        } else if vb.to_multiset().contains(x) {
            assert(vb.contains(x));
            assert(va.to_set().contains(x));
            assert(va.contains(x));
            assert(va.to_multiset().contains(x));
        }
    }
    assert(va.to_multiset() =~= vb.to_multiset());
}

/// Every element of one list of the targets is in any other, and a list of
/// the targets has no element twice.
proof fn lemma_target_list_within(selector: &SourceSelector, a: Seq<(MonitorId, u64)>, b: Seq<(MonitorId, u64)>)
    requires
        selector.lists_targets(a),
        selector.lists_targets(b),
    ensures
        target_views(a).no_duplicates(),
        forall|x| target_views(a).to_set().contains(x) ==> target_views(b).to_set().contains(x),
{
    let (va, vb) = (target_views(a), target_views(b));
    assert forall|i: int, j: int| 0 <= i < va.len() && 0 <= j < va.len() && i != j implies va[i] != va[j] by {
        if i < j {
            assert(a[i].0@.0 != a[j].0@.0);
        } else {
            assert(a[j].0@.0 != a[i].0@.0);
        }
    }
    assert forall|x| va.to_set().contains(x) implies vb.to_set().contains(x) by {
        let i = choose|i: int| 0 <= i < va.len() && va[i] == x;
        assert(selector.is_target(a[i].0@, a[i].1));
        let name = a[i].0@.0;
        assert(selector.has_target(name));
        let j = choose|j: int| 0 <= j < b.len() && #[trigger] b[j].0@.0 == name;
        assert(selector.is_target(b[j].0@, b[j].1));
        assert(vb[j] == x);
    }
}

/// Two batches that describe the same sources make the same source table.
pub proof fn lemma_same_batch_same_table(a: Seq<NdiSource>, b: Seq<NdiSource>)
    requires
        same_batch(a, b),
    ensures
        source_list_table(a) == source_list_table(b),
    decreases a.len(),
{
    if a.len() > 0 {
        let (ra, rb) = (a.drop_last(), b.drop_last());
        assert forall|i: int| 0 <= i < ra.len() implies #[trigger] ra[i].name@ == rb[i].name@
            && ra[i].source == rb[i].source by {
            assert(ra[i] == a[i] && rb[i] == b[i]);
            assert(a[i].name@ == b[i].name@ && a[i].source == b[i].source);
        }
        lemma_same_batch_same_table(ra, rb);
        assert(a.last().name@ == b.last().name@ && a.last().source == b.last().source);
    }
}

/// Replacing the sources a second time with a batch that describes the same
/// sources as the first leaves the selector as the first replacement left
/// it: the same monitors (hence the same `is_configured`) and the same
/// sources (hence the same `targets`).
pub proof fn lemma_repeated_discovery(
    once: &SourceSelector,
    twice: &SourceSelector,
    first: Seq<NdiSource>,
    second: Seq<NdiSource>,
)
    requires
        same_batch(first, second),
        once.sources() == source_list_table(first),
        twice.monitors() == once.monitors(),
        twice.sources() == source_list_table(second),
    ensures
        twice.sources() == once.sources(),
        forall|name: Seq<char>| #[trigger] twice.has_target(name) == once.has_target(name),
{
    lemma_same_batch_same_table(first, second);
}

/// Once the window opened on a configured monitor is recorded, and its
/// source is on the network, showing that source in that window is a
/// target.
pub proof fn lemma_recorded_window_is_target(before: &SourceSelector, after: &SourceSelector, id: MonitorId)
    requires
        before.has_target(id@.0),
        after.monitors() == before.monitors().insert(id@.0, (id@.1, before.monitors()[id@.0].1)),
        after.sources() == before.sources(),
    ensures
        after.is_target(id@, before.sources()[before.monitors()[id@.0].1]),
{
}

/// Turning a name into a monitor id and the id back into a string gives the
/// name back.
pub proof fn lemma_name_round_trip(name: String)
    ensures
        <String as FromSpec<MonitorId>>::from_spec(<MonitorId as FromSpec<String>>::from_spec(name)) == name,
{
}

/// Two ids of the same monitor compare equal, whatever window each carries.
pub proof fn lemma_identity_ignores_window(a: MonitorId, b: MonitorId)
    requires
        a@.0 == b@.0,
    ensures
        a.eq_spec(&b),
        b.eq_spec(&a),
{
}

impl Default for SourceSelector {
    /// A selector with no monitor configured and no source on the network.
    fn default() -> (selector: SourceSelector)
        ensures
            selector.monitors().dom().is_empty(),
            selector.sources().dom().is_empty(),
    {
        SourceSelector { monitor_sources: new_monitor_table(), sources: new_source_table() }
    }
}

} // verus!
