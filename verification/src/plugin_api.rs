//! What a plugin declares about itself, and what the terminal shows of
//! itself to plugins.

use vstd::prelude::*;
use vstd::string::*;
use crate::text::{is_whitespace, lemma_text_order, str_eq, str_lt, text_lt, texts, whitespace};

verus! {

pub type PluginId = String;

#[derive(Debug, Clone, PartialEq, Eq)]
pub struct SdkManifest {
    pub version: String,
}

#[derive(Debug, Clone, Copy, PartialEq, Eq, Structural)]
pub enum PluginRuntime {
    Native,
    Node,
}

#[derive(Debug, Clone, Copy, PartialEq, Eq, Structural)]
pub enum UiMode {
    Data,
    SlintSandbox,
}

#[derive(Debug, Clone, Copy, PartialEq, Eq, Structural)]
pub struct UiManifest {
    pub mode: UiMode,
}

/// The name of an event on which a plugin wants to be started.
#[derive(Debug, Clone, PartialEq, Eq, PartialOrd, Ord, Hash)]
pub struct ActivationEvent(pub String);

#[derive(Debug, Clone, PartialEq, Eq)]
pub struct CommandContribution {
    pub id: String,
    pub title: String,
}

#[derive(Debug, Clone, PartialEq, Eq)]
pub struct SidebarViewContribution {
    pub id: String,
    pub title: String,
    pub icon: Option<String>,
    pub order: i32,
}

#[derive(Debug, Clone, PartialEq, Eq)]
pub struct TabTypeContribution {
    pub id: String,
    pub title: String,
}

#[derive(Debug, Clone, PartialEq, Eq)]
pub struct Contributions {
    pub commands: Vec<CommandContribution>,
    pub sidebar_views: Vec<SidebarViewContribution>,
    pub tab_types: Vec<TabTypeContribution>,
}

#[derive(Debug, Clone, PartialEq, Eq)]
pub struct PluginManifest {
    pub id: PluginId,
    pub name: String,
    pub version: String,
    pub sdk: SdkManifest,
    pub runtime: PluginRuntime,
    pub entry: String,
    pub ui: UiManifest,
    pub activation_events: Vec<ActivationEvent>,
    pub contributes: Contributions,
    pub permissions: Vec<String>,
}

#[derive(Debug, Clone, Copy, PartialEq, Eq, Structural)]
pub enum PluginLifecycleState {
    Discovered,
    Loaded,
    Active,
    Failed,
    Disabled,
}

#[derive(Debug, Clone, PartialEq, Eq)]
pub struct PluginRuntimeState {
    pub plugin_id: PluginId,
    pub lifecycle: PluginLifecycleState,
    pub restart_count: u32,
    pub last_error: Option<String>,
}

/// What went wrong with the manifest in one plugin directory.
#[derive(Debug, Clone, PartialEq, Eq)]
pub struct ManifestDiagnostic {
    pub plugin_dir: String,
    pub message: String,
}

#[derive(Debug, Clone, PartialEq, Eq)]
pub struct DiscoveredPlugin {
    pub root_dir: String,
    pub manifest_path: String,
    pub manifest: PluginManifest,
    pub enabled: bool,
}

/// The plugins found, the events that start them, and what was rejected.
#[derive(Debug, Clone, PartialEq, Eq)]
pub struct PluginCatalog {
    pub plugins: Vec<DiscoveredPlugin>,
    pub activation_index: Vec<(ActivationEvent, Vec<PluginId>)>,
    pub diagnostics: Vec<ManifestDiagnostic>,
}

/// One workspace as a plugin sees it.
#[derive(Debug, Clone, PartialEq, Eq)]
pub struct WorkspaceTopology {
    pub id: u64,
    pub name: String,
    pub pane_ids: Vec<u64>,
    pub active_pane_id: u64,
}

#[derive(Debug, Clone, PartialEq, Eq)]
pub struct TerminalTopology {
    pub workspaces: Vec<WorkspaceTopology>,
}

#[derive(Debug, Clone, PartialEq, Eq)]
pub struct PaneStateSnapshot {
    pub pane_id: u64,
    pub alive: bool,
    pub title: String,
    pub cwd: String,
    pub rows: u16,
    pub cols: u16,
    pub focused: bool,
}

#[derive(Debug, Clone, PartialEq, Eq)]
pub struct PaneContentSnapshot {
    pub pane_id: u64,
    pub text: String,
    pub truncated: bool,
}

impl Default for SdkManifest {
    fn default() -> (m: Self)
        ensures
            m.version@ == "1.x"@,
    {
        SdkManifest { version: String::from_str("1.x") }
    }
}

impl Default for PluginRuntime {
    fn default() -> (r: Self)
        ensures
            r == PluginRuntime::Native,
    {
        PluginRuntime::Native
    }
}

impl Default for UiMode {
    fn default() -> (m: Self)
        ensures
            m == UiMode::Data,
    {
        UiMode::Data
    }
}

impl Default for UiManifest {
    fn default() -> (m: Self)
        ensures
            m.mode == UiMode::Data,
    {
        UiManifest { mode: UiMode::Data }
    }
}

impl Default for PluginLifecycleState {
    fn default() -> (s: Self)
        ensures
            s == PluginLifecycleState::Discovered,
    {
        PluginLifecycleState::Discovered
    }
}

impl Default for Contributions {
    fn default() -> (c: Self)
        ensures
            c.commands@.len() == 0,
            c.sidebar_views@.len() == 0,
            c.tab_types@.len() == 0,
    {
        Contributions { commands: Vec::new(), sidebar_views: Vec::new(), tab_types: Vec::new() }
    }
}

impl Default for PluginCatalog {
    fn default() -> (c: Self)
        ensures
            c.plugins@.len() == 0,
            c.activation_index@.len() == 0,
            c.diagnostics@.len() == 0,
    {
        PluginCatalog { plugins: Vec::new(), activation_index: Vec::new(), diagnostics: Vec::new() }
    }
}

impl ActivationEvent {
    /// The event of that name.
    pub fn named(value: &str) -> (e: Self)
        ensures
            e.0@ == value@,
    {
        ActivationEvent(String::from_str(value))
    }
}


/// A text of white space only: nothing is left of it when it is trimmed.
pub open spec fn blank(text: Seq<char>) -> bool {
    forall|i: int| 0 <= i < text.len() ==> whitespace(#[trigger] text[i])
}

fn is_blank(text: &str) -> (b: bool)
    ensures
        b == blank(text@),
{
    let n = text.unicode_len();
    let mut i: usize = 0;
    while i < n
        invariant
            i <= n,
            n == text@.len(),
            forall|k: int| 0 <= k < i ==> whitespace(#[trigger] text@[k]),
        decreases n - i,
    {
        if !is_whitespace(text.get_char(i)) {
            return false;
        }
        i += 1;
    }
    true
}

/// What is wrong with a manifest, if anything: the first of id, name,
/// version and entry that is blank.
pub open spec fn manifest_fault(m: PluginManifest) -> Option<Seq<char>> {
    if blank(m.id@) {
        Some("invalid manifest: id must not be empty"@)
    } else if blank(m.name@) {
        Some("invalid manifest: name must not be empty"@)
    } else if blank(m.version@) {
        Some("invalid manifest: version must not be empty"@)
    } else if blank(m.entry@) {
        Some("invalid manifest: entry must not be empty"@)
    } else {
        None
    }
}

/// Accepts a manifest whose id, name, version and entry are not blank.
pub fn validate_manifest(manifest: &PluginManifest) -> (r: Result<(), String>)
    ensures
        match manifest_fault(*manifest) {
            Some(message) => r is Err && r->Err_0@ == message,
            None => r is Ok,
        },
{
    if is_blank(manifest.id.as_str()) {
        return Err(String::from_str("invalid manifest: id must not be empty"));
    }
    if is_blank(manifest.name.as_str()) {
        return Err(String::from_str("invalid manifest: name must not be empty"));
    }
    if is_blank(manifest.version.as_str()) {
        return Err(String::from_str("invalid manifest: version must not be empty"));
    }
    if is_blank(manifest.entry.as_str()) {
        return Err(String::from_str("invalid manifest: entry must not be empty"));
    }
    Ok(())
}

/// The events of an index, in its order.
pub open spec fn index_keys(index: Seq<(ActivationEvent, Vec<PluginId>)>) -> Seq<Seq<char>> {
    index.map_values(|e: (ActivationEvent, Vec<PluginId>)| e.0.0@)
}

/// The plugins that an index lists for an event: none where the index does
/// not hold the event.
pub open spec fn index_lookup(index: Seq<(ActivationEvent, Vec<PluginId>)>, event: Seq<char>) -> Seq<
    Seq<char>,
>
    decreases index.len(),
{
    if index.len() == 0 {
        Seq::empty()
    } else if index.last().0.0@ == event {
        texts(index.last().1@)
    } else {
        index_lookup(index.drop_last(), event)
    }
}

/// The id of a plugin, once for each time that the plugin names the event
/// among the first `upto` of its events.
pub open spec fn listed_times(m: PluginManifest, event: Seq<char>, upto: int) -> Seq<Seq<char>>
    decreases upto,
{
    if upto <= 0 {
        Seq::empty()
    } else {
        let before = listed_times(m, event, upto - 1);
        if m.activation_events@[upto - 1].0@ == event {
            before.push(m.id@)
        } else {
            before
        }
    }
}

/// The plugins that start on an event, in the order of the manifests.
pub open spec fn plugins_for(manifests: Seq<PluginManifest>, event: Seq<char>) -> Seq<Seq<char>>
    decreases manifests.len(),
{
    if manifests.len() == 0 {
        Seq::empty()
    } else {
        let m = manifests.last();
        plugins_for(manifests.drop_last(), event) + listed_times(
            m,
            event,
            m.activation_events@.len() as int,
        )
    }
}

/// The events are in ascending order, none twice.
pub open spec fn index_sorted(index: Seq<(ActivationEvent, Vec<PluginId>)>) -> bool {
    forall|i: int, j: int|
        0 <= i < j < index.len() ==> text_lt((#[trigger] index[i]).0.0@, (#[trigger] index[j]).0.0@)
}

/// Every entry lists a plugin.
pub open spec fn entries_filled(index: Seq<(ActivationEvent, Vec<PluginId>)>) -> bool {
    forall|k: int| 0 <= k < index.len() ==> (#[trigger] index[k]).1@.len() > 0
}

/// In a sorted index the entry of an event is found at its place.
proof fn lemma_lookup_at(index: Seq<(ActivationEvent, Vec<PluginId>)>, k: int)
    requires
        index_sorted(index),
        0 <= k < index.len(),
    ensures
        index_lookup(index, index[k].0.0@) == texts(index[k].1@),
    decreases index.len(),
{
    if k < index.len() - 1 {
        assert(text_lt(index[k].0.0@, index[index.len() - 1].0.0@));
        lemma_text_order(index[k].0.0@, index.last().0.0@, index[k].0.0@);
        let head = index.drop_last();
        assert forall|i: int, j: int| 0 <= i < j < head.len() implies text_lt(
            (#[trigger] head[i]).0.0@,
            (#[trigger] head[j]).0.0@,
        ) by {
            assert(head[i] == index[i] && head[j] == index[j]);
        }
        lemma_lookup_at(head, k);
    }
}

/// An index that holds no entry for an event lists nothing for it.
proof fn lemma_lookup_absent(index: Seq<(ActivationEvent, Vec<PluginId>)>, event: Seq<char>)
    requires
        forall|k: int| 0 <= k < index.len() ==> (#[trigger] index[k]).0.0@ != event,
    ensures
        index_lookup(index, event).len() == 0,
    decreases index.len(),
{
    if index.len() > 0 {
        let head = index.drop_last();
        assert forall|k: int| 0 <= k < head.len() implies (#[trigger] head[k]).0.0@ != event by {
            assert(head[k] == index[k]);
        }
        lemma_lookup_absent(head, event);
    }
}

/// Adds a plugin to the entry of an event, which is made where it is missing.
fn index_add(index: &mut Vec<(ActivationEvent, Vec<PluginId>)>, event: &ActivationEvent, id: &PluginId)
    requires
        index_sorted(old(index)@),
    ensures
        index_sorted(final(index)@),
        entries_filled(old(index)@) ==> entries_filled(final(index)@),
        forall|e: Seq<char>|
            #[trigger] index_lookup(final(index)@, e) == if e == event.0@ {
                index_lookup(old(index)@, e).push(id@)
            } else {
                index_lookup(old(index)@, e)
            },
{
    let ghost before = index@;
    let mut i: usize = 0;
    while i < index.len() && str_lt(index[i].0.0.as_str(), event.0.as_str())
        invariant
            i <= index@.len(),
            index@ == before,
            forall|k: int| 0 <= k < i ==> text_lt((#[trigger] index@[k]).0.0@, event.0@),
        decreases index@.len() - i,
    {
        i += 1;
    }
    let found = i < index.len() && str_eq(index[i].0.0.as_str(), event.0.as_str());
    if found {
        let (key, mut ids) = index.remove(i);
        ids.push(id.clone());
        index.insert(i, (key, ids));
        assert(index@ =~= before.update(i as int, index@[i as int]));
    } else {
        let mut ids: Vec<PluginId> = Vec::new();
        ids.push(id.clone());
        index.insert(i, (ActivationEvent(event.0.clone()), ids));
        assert(index@ =~= before.insert(i as int, index@[i as int]));
    }
    proof {
        let after = index@;
        if entries_filled(before) {
            assert forall|k: int| 0 <= k < after.len() implies (#[trigger] after[k]).1@.len() > 0 by {
                if found {
                    if k != i {
                        assert(after[k] == before[k]);
                    }
                } else if k < i {
                    assert(after[k] == before[k]);
                } else if k > i {
                    assert(after[k] == before[k - 1]);
                }
            }
        }
        assert forall|k: int| 0 <= k < before.len() && k >= i && !found implies text_lt(
            event.0@,
            (#[trigger] before[k]).0.0@,
        ) by {
            lemma_text_order(before[i as int].0.0@, event.0@, before[k].0.0@);
            lemma_text_order(event.0@, before[i as int].0.0@, before[k].0.0@);
            if k > i {
                assert(text_lt(before[i as int].0.0@, before[k].0.0@));
            }
        }
        assert(index_sorted(after)) by {
            assert forall|a: int, b: int| 0 <= a < b < after.len() implies text_lt(
                (#[trigger] after[a]).0.0@,
                (#[trigger] after[b]).0.0@,
            ) by {
                if found {
                    assert(after[a].0.0@ == before[a].0.0@ && after[b].0.0@ == before[b].0.0@);
                    assert(text_lt(before[a].0.0@, before[b].0.0@));
                } else {
                    let a0 = if a < i { a } else { a - 1 };
                    let b0 = if b < i { b } else { b - 1 };
                    if a != i && b != i {
                        assert(after[a] == before[a0] && after[b] == before[b0]);
                        assert(text_lt(before[a0].0.0@, before[b0].0.0@));
                    } else if a == i {
                        assert(after[b] == before[b - 1]);
                    } else {
                        assert(after[a] == before[a]);
                    }
                }
            }
        }
        assert forall|e: Seq<char>| #[trigger] index_lookup(after, e) == if e == event.0@ {
            index_lookup(before, e).push(id@)
        } else {
            index_lookup(before, e)
        } by {
            if e != event.0@ {
                if found {
                    lemma_lookup_update(before, i as int, after[i as int], e);
                } else {
                    lemma_lookup_insert(before, i as int, after[i as int], e);
                }
            }
            if e == event.0@ {
                lemma_lookup_at(after, i as int);
                assert(after[i as int].0.0@ == event.0@);
                if found {
                    lemma_lookup_at(before, i as int);
                    assert(texts(after[i as int].1@) =~= texts(before[i as int].1@).push(id@));
                } else {
                    assert forall|k: int| 0 <= k < before.len() implies (#[trigger] before[k]).0.0@
                        != event.0@ by {
                        lemma_text_order(event.0@, event.0@, event.0@);
                        if k < i {
                        } else {
                            assert(text_lt(event.0@, before[k].0.0@));
                        }
                    }
                    lemma_lookup_absent(before, event.0@);
                    assert(texts(after[i as int].1@) =~= Seq::<Seq<char>>::empty().push(id@));
                    assert(index_lookup(before, e) =~= Seq::<Seq<char>>::empty());
                }
            }
        }
    }
}

/// Entries of other events are found as before when one entry is changed in
/// place.
proof fn lemma_lookup_update(
    before: Seq<(ActivationEvent, Vec<PluginId>)>,
    i: int,
    entry: (ActivationEvent, Vec<PluginId>),
    e: Seq<char>,
)
    requires
        0 <= i < before.len(),
        entry.0.0@ == before[i].0.0@,
        e != entry.0.0@,
    ensures
        index_lookup(before.update(i, entry), e) == index_lookup(before, e),
    decreases before.len(),
{
    let after = before.update(i, entry);
    if i == before.len() - 1 {
        assert(after.drop_last() =~= before.drop_last());
    } else {
        assert(after.last() == before.last());
        assert(after.drop_last() =~= before.drop_last().update(i, entry));
        if before.last().0.0@ != e {
            lemma_lookup_update(before.drop_last(), i, entry, e);
        }
    }
}

/// Entries of other events are found as before when a new entry is put in.
proof fn lemma_lookup_insert(
    before: Seq<(ActivationEvent, Vec<PluginId>)>,
    i: int,
    entry: (ActivationEvent, Vec<PluginId>),
    e: Seq<char>,
)
    requires
        0 <= i <= before.len(),
        e != entry.0.0@,
    ensures
        index_lookup(before.insert(i, entry), e) == index_lookup(before, e),
    decreases before.len(),
{
    let after = before.insert(i, entry);
    if i == before.len() {
        assert(after.drop_last() =~= before);
        assert(after.last() == entry);
    } else {
        assert(after.last() == before.last());
        assert(after.drop_last() =~= before.drop_last().insert(i, entry));
        if before.last().0.0@ != e {
            lemma_lookup_insert(before.drop_last(), i, entry, e);
        }
    }
}

/// For each event the plugins that start on it, in the order of the
/// manifests; the events in ascending order, and none without a plugin.
pub fn build_activation_index(manifests: &[PluginManifest]) -> (index: Vec<
    (ActivationEvent, Vec<PluginId>),
>)
    ensures
        index_sorted(index@),
        entries_filled(index@),
        forall|e: Seq<char>| #[trigger] index_lookup(index@, e) == plugins_for(manifests@, e),
{
    let mut index: Vec<(ActivationEvent, Vec<PluginId>)> = Vec::new();
    let mut m: usize = 0;
    assert(manifests@.take(0) =~= Seq::<PluginManifest>::empty());
    while m < manifests.len()
        invariant
            m <= manifests@.len(),
            index_sorted(index@),
            entries_filled(index@),
            forall|e: Seq<char>|
                #[trigger] index_lookup(index@, e) == plugins_for(manifests@.take(m as int), e),
        decreases manifests@.len() - m,
    {
        let manifest = &manifests[m];
        let ghost base = index@;
        let mut k: usize = 0;
        while k < manifest.activation_events.len()
            invariant
                k <= manifest.activation_events@.len(),
                index_sorted(index@),
                entries_filled(index@),
                forall|e: Seq<char>|
                    #[trigger] index_lookup(index@, e) == index_lookup(base, e) + listed_times(
                        *manifest,
                        e,
                        k as int,
                    ),
            decreases manifest.activation_events@.len() - k,
        {
            let ghost prev = index@;
            index_add(&mut index, &manifest.activation_events[k], &manifest.id);
            proof {
                assert forall|e: Seq<char>| #[trigger] index_lookup(index@, e) == index_lookup(
                    base,
                    e,
                ) + listed_times(*manifest, e, k + 1) by {
                    assert(index_lookup(prev, e) == index_lookup(base, e) + listed_times(
                        *manifest,
                        e,
                        k as int,
                    ));
                    if e == manifest.activation_events@[k as int].0@ {
                        assert(index_lookup(index@, e) =~= index_lookup(base, e) + listed_times(
                            *manifest,
                            e,
                            k + 1,
                        ));
                    }
                }
            }
            k += 1;
        }
        proof {
            assert(manifests@.take(m + 1).drop_last() =~= manifests@.take(m as int));
            assert(manifests@.take(m + 1).last() == *manifest);
        }
        m += 1;
    }
    assert(manifests@.take(m as int) =~= manifests@);
    index
}

} // verus!
