//! The registry of live plugin instances and their item caches.
//!
//! The registry holds at most one instance for each identity, and beside it
//! the item list that the module declared when it was initialized. It
//! decides; it never calls into a module itself. Its caller instantiates the
//! module that an [`InitStep::Launch`] describes, calls the entry points of
//! the instances that [`PluginManager::filter_target`] and
//! [`PluginManager::select`] hand out, and reports what came back.

use vstd::prelude::*;
use crate::bridge::{CliConfig, CliConfigView};
use crate::identity::{identity_of, IdentityView, PluginIdentifier};
use crate::items::{copy_items, filter_items, matching_items, ItemView, PluginItem};
use crate::text::TextPairs;
use crate::manifest::{
    build_manifest, manifest_of, ManifestView, PermissionManifest, PluginConfig, PluginConfigView,
};

verus! {

/// The mathematical value of one registry entry: the live instance and the
/// item list cached for it, if the module declared one.
pub struct EntryView<I> {
    pub instance: I,
    pub cache: Option<Seq<ItemView>>,
}

/// The items cached for an entry; none where the module declared none.
pub open spec fn cached_items<I>(entry: EntryView<I>) -> Seq<ItemView> {
    match entry.cache {
        Some(items) => items,
        None => Seq::empty(),
    }
}

/// Why an initialization failed.
#[derive(Debug, Clone, PartialEq, Eq)]
pub enum InitError {
    /// The sandbox did not bring the module up; its words.
    InstantiationFailed(String),
    /// The module's `init` returned a text that is no item list; the parser's words.
    MalformedItems(String),
}

/// The mathematical value of an [`InitError`].
pub enum InitErrorView {
    InstantiationFailed(Seq<char>),
    MalformedItems(Seq<char>),
}

impl View for InitError {
    type V = InitErrorView;

    open spec fn view(&self) -> InitErrorView {
        match self {
            InitError::InstantiationFailed(words) => InitErrorView::InstantiationFailed(words@),
            InitError::MalformedItems(words) => InitErrorView::MalformedItems(words@),
        }
    }
}

/// Why a query failed.
#[derive(Debug, Clone, PartialEq, Eq)]
pub enum QueryError {
    /// No live plugin has the identity.
    PluginNotFound,
    /// The call into the module failed; the sandbox's words.
    CallFailed(String),
}

/// The mathematical value of a [`QueryError`].
pub enum QueryErrorView {
    PluginNotFound,
    CallFailed(Seq<char>),
}

impl View for QueryError {
    type V = QueryErrorView;

    open spec fn view(&self) -> QueryErrorView {
        match self {
            QueryError::PluginNotFound => QueryErrorView::PluginNotFound,
            QueryError::CallFailed(words) => QueryErrorView::CallFailed(words@),
        }
    }
}

/// Why reporting a selection failed.
#[derive(Debug, Clone, PartialEq, Eq)]
pub enum SelectionError {
    /// No live plugin has the identity.
    PluginNotFound,
    /// The call into the module failed; the sandbox's words.
    CallFailed(String),
}

/// The mathematical value of a [`SelectionError`].
pub enum SelectionErrorView {
    PluginNotFound,
    CallFailed(Seq<char>),
}

impl View for SelectionError {
    type V = SelectionErrorView;

    open spec fn view(&self) -> SelectionErrorView {
        match self {
            SelectionError::PluginNotFound => SelectionErrorView::PluginNotFound,
            SelectionError::CallFailed(words) => SelectionErrorView::CallFailed(words@),
        }
    }
}

/// What the registry asks of its caller when a plugin is to be initialized.
pub enum InitStep {
    /// The plugin is live: these are its cached items, and nothing is to be done.
    Ready(Vec<PluginItem>),
    /// The plugin is not live: instantiate its module under `manifest`, with
    /// the command bridge bound to `cli`, call its `init`, and report the
    /// outcome for `identifier` to [`PluginManager::complete_init`].
    Launch { identifier: PluginIdentifier, manifest: PermissionManifest, cli: CliConfig },
}

/// The mathematical value of an [`InitStep`].
pub enum InitStepView {
    Ready(Seq<ItemView>),
    Launch { identifier: IdentityView, manifest: ManifestView, cli: CliConfigView },
}

impl View for InitStep {
    type V = InitStepView;

    open spec fn view(&self) -> InitStepView {
        match self {
            InitStep::Ready(items) => InitStepView::Ready(items.deep_view()),
            InitStep::Launch { identifier, manifest, cli } => InitStepView::Launch {
                identifier: identifier@,
                manifest: manifest@,
                cli: cli@,
            },
        }
    }
}

/// What became of a launch.
pub enum LaunchOutcome<I> {
    /// The sandbox did not bring the module up: it refused to instantiate
    /// it, or the module's `init` failed. The sandbox's words.
    Failed(String),
    /// The module runs. `init_output` is the text that its `init` returned,
    /// `parsed` what that text reads as: an item list, or the parser's words.
    Started { instance: I, init_output: String, parsed: Result<Vec<PluginItem>, String> },
}

/// The mathematical value of a [`LaunchOutcome`].
pub enum LaunchOutcomeView<I> {
    Failed(Seq<char>),
    Started { instance: I, init_output: Seq<char>, parsed: Result<Seq<ItemView>, Seq<char>> },
}

impl<I> View for LaunchOutcome<I> {
    type V = LaunchOutcomeView<I>;

    open spec fn view(&self) -> LaunchOutcomeView<I> {
        match self {
            LaunchOutcome::Failed(words) => LaunchOutcomeView::Failed(words@),
            LaunchOutcome::Started { instance, init_output, parsed } => LaunchOutcomeView::Started {
                instance: *instance,
                init_output: init_output@,
                parsed: match parsed {
                    Ok(items) => Ok(items.deep_view()),
                    Err(words) => Err(words@),
                },
            },
        }
    }
}

/// The first step of an initialization: a read of the cache where the
/// identity is live, a launch where it is not.
pub open spec fn init_step<I>(
    registry: Map<IdentityView, EntryView<I>>,
    name: Seq<char>,
    settings: PluginConfigView,
    data_dir_path: Seq<char>,
    platform: Seq<char>,
    env: TextPairs,
) -> InitStepView {
    let identifier = identity_of(name, settings.config);
    if registry.dom().contains(identifier) {
        InitStepView::Ready(cached_items(registry[identifier]))
    } else {
        InitStepView::Launch {
            identifier,
            manifest: manifest_of(settings, data_dir_path, platform, env),
            cli: CliConfigView { enabled: settings.cli, plugin_name: name, data_dir_path },
        }
    }
}

/// The cache that a started module's `init` output asks for: none for an
/// empty output, the parsed list for any other, or the parser's words where
/// the output did not parse.
pub open spec fn declared_items(
    init_output: Seq<char>,
    parsed: Result<Seq<ItemView>, Seq<char>>,
) -> Result<Option<Seq<ItemView>>, Seq<char>> {
    if init_output.len() == 0 {
        Ok(None)
    } else {
        match parsed {
            Ok(items) => Ok(Some(items)),
            Err(words) => Err(words),
        }
    }
}

/// The registry after the outcome of a launch was reported for `identifier`.
/// A live identity keeps its entry. A new one is entered only where the
/// module started and its `init` output was empty or parsed.
pub open spec fn registry_after_init<I>(
    registry: Map<IdentityView, EntryView<I>>,
    identifier: IdentityView,
    outcome: LaunchOutcomeView<I>,
) -> Map<IdentityView, EntryView<I>> {
    if registry.dom().contains(identifier) {
        registry
    } else {
        match outcome {
            LaunchOutcomeView::Failed(_) => registry,
            LaunchOutcomeView::Started { instance, init_output, parsed } => match declared_items(
                init_output,
                parsed,
            ) {
                Ok(cache) => registry.insert(identifier, EntryView { instance, cache }),
                Err(_) => registry,
            },
        }
    }
}

/// What the caller of an initialization gets once the outcome of the launch
/// was reported for `identifier`.
pub open spec fn init_result<I>(
    registry: Map<IdentityView, EntryView<I>>,
    identifier: IdentityView,
    outcome: LaunchOutcomeView<I>,
) -> Result<Seq<ItemView>, InitErrorView> {
    if registry.dom().contains(identifier) {
        Ok(cached_items(registry[identifier]))
    } else {
        match outcome {
            LaunchOutcomeView::Failed(words) => Err(InitErrorView::InstantiationFailed(words)),
            LaunchOutcomeView::Started { instance, init_output, parsed } => match declared_items(
                init_output,
                parsed,
            ) {
                Ok(cache) => Ok(cached_items(EntryView { instance, cache })),
                Err(words) => Err(InitErrorView::MalformedItems(words)),
            },
        }
    }
}

/// The view of what a module's `filter` came back with: the sandbox's words
/// where the call failed; else the item list that the returned text reads
/// as, or nothing where it reads as none.
pub open spec fn reply_view(reply: Result<Option<Vec<PluginItem>>, String>) -> Result<
    Option<Seq<ItemView>>,
    Seq<char>,
> {
    match reply {
        Ok(Some(items)) => Ok(Some(items.deep_view())),
        Ok(None) => Ok(None),
        Err(words) => Err(words@),
    }
}

/// The result of a query. A list that the module returned stands as it is,
/// unless it is empty; in every other case the cached items that match the
/// query are the result.
pub open spec fn query_result<I>(
    registry: Map<IdentityView, EntryView<I>>,
    identifier: IdentityView,
    query: Seq<char>,
    reply: Result<Option<Seq<ItemView>>, Seq<char>>,
) -> Result<Seq<ItemView>, QueryErrorView> {
    if !registry.dom().contains(identifier) {
        Err(QueryErrorView::PluginNotFound)
    } else {
        match reply {
            Err(words) => Err(QueryErrorView::CallFailed(words)),
            Ok(Some(items)) if items.len() > 0 => Ok(items),
            _ => Ok(matching_items(cached_items(registry[identifier]), query)),
        }
    }
}

/// Re-initialization reads the cache: once the outcome of a launch was
/// reported with success, initializing the same identity again is answered
/// with the same items, without a launch, and reporting an outcome for it
/// again changes nothing.
pub proof fn law_reinitialization_reads_cache<I>(
    registry: Map<IdentityView, EntryView<I>>,
    name: Seq<char>,
    settings: PluginConfigView,
    data_dir_path: Seq<char>,
    platform: Seq<char>,
    env: TextPairs,
    first: LaunchOutcomeView<I>,
    second: LaunchOutcomeView<I>,
)
    requires
        init_result(registry, identity_of(name, settings.config), first) is Ok,
    ensures
        ({
            let identifier = identity_of(name, settings.config);
            let items = init_result(registry, identifier, first)->Ok_0;
            let after = registry_after_init(registry, identifier, first);
            &&& init_step(after, name, settings, data_dir_path, platform, env)
                == InitStepView::Ready(items)
            &&& init_result(after, identifier, second) == Ok::<Seq<ItemView>, InitErrorView>(items)
            &&& registry_after_init(after, identifier, second) == after
        }),
{
}

/// A failed initialization leaves no trace in the registry.
pub proof fn law_failed_init_registers_nothing<I>(
    registry: Map<IdentityView, EntryView<I>>,
    identifier: IdentityView,
    outcome: LaunchOutcomeView<I>,
)
    requires
        init_result(registry, identifier, outcome) is Err,
    ensures
        registry_after_init(registry, identifier, outcome) == registry,
{
}

/// Not found: for an identity that is not live a query fails with
/// `PluginNotFound`, whatever the module would have answered; it never
/// succeeds with an empty list.
pub proof fn law_unknown_identity_is_not_found<I>(
    registry: Map<IdentityView, EntryView<I>>,
    identifier: IdentityView,
    query: Seq<char>,
    reply: Result<Option<Seq<ItemView>>, Seq<char>>,
)
    requires
        !registry.dom().contains(identifier),
    ensures
        query_result(registry, identifier, query, reply) == Err::<Seq<ItemView>, QueryErrorView>(
            QueryErrorView::PluginNotFound,
        ),
{
}

/// Reporting the outcome of a launch for one identity neither makes another
/// identity live nor touches another identity's entry.
pub proof fn law_init_touches_one_identity<I>(
    registry: Map<IdentityView, EntryView<I>>,
    identifier: IdentityView,
    outcome: LaunchOutcomeView<I>,
    other: IdentityView,
)
    requires
        other != identifier,
    ensures
        registry_after_init(registry, identifier, outcome).dom().contains(other)
            == registry.dom().contains(other),
        registry.dom().contains(other) ==> registry_after_init(registry, identifier, outcome)[other]
            == registry[other],
{
}

struct Entry<I> {
    id: PluginIdentifier,
    instance: I,
    cache: Option<Vec<PluginItem>>,
}

spec fn entry_view<I>(entry: Entry<I>) -> EntryView<I> {
    EntryView {
        instance: entry.instance,
        cache: match entry.cache {
            Some(items) => Some(items.deep_view()),
            None => None,
        },
    }
}

spec fn listed_at<I>(entries: Seq<Entry<I>>, id: IdentityView, i: int) -> bool {
    0 <= i < entries.len() && entries[i].id@ == id
}

spec fn listed<I>(entries: Seq<Entry<I>>, id: IdentityView) -> bool {
    exists|i: int| listed_at(entries, id, i)
}

spec fn slot_of<I>(entries: Seq<Entry<I>>, id: IdentityView) -> int {
    choose|i: int| listed_at(entries, id, i)
}

spec fn distinct_ids<I>(entries: Seq<Entry<I>>) -> bool {
    forall|i: int, j: int|
        #![trigger entries[i], entries[j]]
        0 <= i < j < entries.len() ==> entries[i].id@ != entries[j].id@
}

spec fn registry_view<I>(entries: Seq<Entry<I>>) -> Map<IdentityView, EntryView<I>> {
    Map::new(
        |id: IdentityView| listed(entries, id),
        |id: IdentityView| entry_view(entries[slot_of(entries, id)]),
    )
}

/// In a list with distinct identities the view maps each listed identity to
/// the view of the entry that carries it.
proof fn lemma_view_at<I>(entries: Seq<Entry<I>>, i: int)
    requires
        distinct_ids(entries),
        0 <= i < entries.len(),
    ensures
        registry_view(entries).dom().contains(entries[i].id@),
        registry_view(entries)[entries[i].id@] == entry_view(entries[i]),
{
    let id = entries[i].id@;
    assert(listed_at(entries, id, i));
    let j = slot_of(entries, id);
    assert(listed_at(entries, id, j));
    if i < j {
        assert(entries[i].id@ != entries[j].id@);
    } else if j < i {
        assert(entries[j].id@ != entries[i].id@);
    }
}

/// Entering a new identity at the end extends the view by one pair.
proof fn lemma_view_push<I>(entries: Seq<Entry<I>>, entry: Entry<I>)
    requires
        distinct_ids(entries),
        !listed(entries, entry.id@),
    ensures
        distinct_ids(entries.push(entry)),
        registry_view(entries.push(entry)) == registry_view(entries).insert(
            entry.id@,
            entry_view(entry),
        ),
{
    let grown = entries.push(entry);
    assert forall|i: int, j: int| 0 <= i < j < grown.len() implies grown[i].id@
        != grown[j].id@ by {
        if j == entries.len() {
            assert(!listed_at(entries, entry.id@, i));
        } else {
            assert(entries[i].id@ != entries[j].id@);
        }
    }
    let before = registry_view(entries);
    let after = registry_view(grown);
    assert forall|id: IdentityView| after.dom().contains(id) <==> before.insert(
        entry.id@,
        entry_view(entry),
    ).dom().contains(id) by {
        if listed(grown, id) {
            let k = slot_of(grown, id);
            assert(listed_at(grown, id, k));
            if k < entries.len() {
                assert(listed_at(entries, id, k));
            }
        }
        if listed(entries, id) {
            let k = slot_of(entries, id);
            assert(listed_at(entries, id, k));
            assert(listed_at(grown, id, k));
        }
        if id == entry.id@ {
            assert(listed_at(grown, id, entries.len() as int));
        }
    }
    assert forall|id: IdentityView| after.dom().contains(id) implies #[trigger] after[id]
        == before.insert(entry.id@, entry_view(entry))[id] by {
        let k = slot_of(grown, id);
        assert(listed_at(grown, id, k));
        lemma_view_at(grown, k);
        if k < entries.len() {
            lemma_view_at(entries, k);
            assert(!listed_at(entries, entry.id@, k));
        }
    }
    assert(after =~= before.insert(entry.id@, entry_view(entry)));
}

/// Replacing the instance of one entry changes the view at its identity only.
proof fn lemma_view_set_instance<I>(entries: Seq<Entry<I>>, i: int, changed: Entry<I>)
    requires
        distinct_ids(entries),
        0 <= i < entries.len(),
        changed.id@ == entries[i].id@,
        changed.cache == entries[i].cache,
    ensures
        distinct_ids(entries.update(i, changed)),
        registry_view(entries.update(i, changed)) == registry_view(entries).insert(
            entries[i].id@,
            EntryView {
                instance: changed.instance,
                cache: registry_view(entries)[entries[i].id@].cache,
            },
        ),
{
    let updated = entries.update(i, changed);
    assert forall|a: int, b: int| 0 <= a < b < updated.len() implies updated[a].id@
        != updated[b].id@ by {
        assert(entries[a].id@ != entries[b].id@);
    }
    let before = registry_view(entries);
    let after = registry_view(updated);
    lemma_view_at(entries, i);
    let target = before.insert(
        entries[i].id@,
        EntryView { instance: changed.instance, cache: before[entries[i].id@].cache },
    );
    assert forall|id: IdentityView| after.dom().contains(id) <==> target.dom().contains(id) by {
        if listed(updated, id) {
            let k = slot_of(updated, id);
            assert(listed_at(updated, id, k));
            assert(listed_at(entries, id, k));
        }
        if listed(entries, id) {
            let k = slot_of(entries, id);
            assert(listed_at(entries, id, k));
            assert(listed_at(updated, id, k));
        }
    }
    assert forall|id: IdentityView| after.dom().contains(id) implies #[trigger] after[id]
        == target[id] by {
        let k = slot_of(updated, id);
        assert(listed_at(updated, id, k));
        lemma_view_at(updated, k);
        lemma_view_at(entries, k);
    }
    assert(after =~= target);
}

/// The live plugin instances, one for each identity, each with the item list
/// that its module declared. `I` is the type of an instance.
pub struct PluginManager<I> {
    entries: Vec<Entry<I>>,
}

impl<I> View for PluginManager<I> {
    type V = Map<IdentityView, EntryView<I>>;

    closed spec fn view(&self) -> Map<IdentityView, EntryView<I>> {
        registry_view(self.entries@)
    }
}

impl<I> PluginManager<I> {
    /// No identity is entered twice.
    pub closed spec fn wf(&self) -> bool {
        distinct_ids(self.entries@)
    }

    /// A registry without plugins.
    pub fn new() -> (manager: Self)
        ensures
            manager.wf(),
            manager@ == Map::<IdentityView, EntryView<I>>::empty(),
    {
        let manager = PluginManager { entries: Vec::new() };
        proof {
            assert forall|id: IdentityView| !listed(manager.entries@, id) by {
                if listed(manager.entries@, id) {
                    assert(listed_at(manager.entries@, id, slot_of(manager.entries@, id)));
                }
            }
            assert(manager@ =~= Map::<IdentityView, EntryView<I>>::empty());
        }
        manager
    }

    /// The position of the entry with the identity, if it is live.
    fn find(&self, id: &PluginIdentifier) -> (slot: Option<usize>)
        requires
            self.wf(),
        ensures
            match slot {
                Some(i) => listed_at(self.entries@, id@, i as int),
                None => !listed(self.entries@, id@),
            },
            self@.dom().contains(id@) == slot is Some,
            slot matches Some(i) ==> self@[id@] == entry_view(self.entries@[i as int]),
    {
        let mut i: usize = 0;
        while i < self.entries.len()
            invariant
                i <= self.entries.len(),
                distinct_ids(self.entries@),
                forall|k: int| 0 <= k < i ==> !listed_at(self.entries@, id@, k),
            decreases self.entries.len() - i,
        {
            if self.entries[i].id.same_as(id) {
                proof {
                    lemma_view_at(self.entries@, i as int);
                }
                return Some(i);
            }
            i = i + 1;
        }
        proof {
            if listed(self.entries@, id@) {
                assert(listed_at(self.entries@, id@, slot_of(self.entries@, id@)));
            }
        }
        None
    }

    /// Whether a plugin with the identity is live.
    pub fn is_live(&self, id: &PluginIdentifier) -> (live: bool)
        requires
            self.wf(),
        ensures
            live == self@.dom().contains(id@),
    {
        self.find(id).is_some()
    }

    /// The live instance with the identity, for a call into its module.
    /// Whatever the caller does to the instance, the registry keeps the
    /// identity and its cache.
    pub fn instance_mut(&mut self, id: &PluginIdentifier) -> (found: Option<&mut I>)
        requires
            old(self).wf(),
        ensures
            final(self).wf(),
            found is Some == old(self)@.dom().contains(id@),
            found is None ==> final(self)@ == old(self)@,
            found matches Some(instance) ==> {
                &&& *instance == old(self)@[id@].instance
                &&& final(self)@ == old(self)@.insert(
                    id@,
                    EntryView { instance: *final(instance), cache: old(self)@[id@].cache },
                )
            },
    {
        match self.find(id) {
            Some(i) => {
                // Whatever instance the borrower leaves in the entry, the
                // list keeps distinct identities and its view changes at
                // this identity only.
                proof {
                    let entries = self.entries@;
                    assert forall|changed: Entry<I>|
                        changed.id@ == entries[i as int].id@ && changed.cache == entries[i as int].cache
                        implies distinct_ids(#[trigger] entries.update(i as int, changed))
                        && registry_view(entries.update(i as int, changed)) == registry_view(
                        entries,
                    ).insert(
                        id@,
                        EntryView {
                            instance: changed.instance,
                            cache: registry_view(entries)[id@].cache,
                        },
                    ) by {
                        lemma_view_set_instance(entries, i as int, changed);
                    }
                }
                Some(&mut self.entries[i].instance)
            },
            None => None,
        }
    }

    /// The first step of an initialization.
    ///
    /// Where the identity that `name` and the configuration resolve to is
    /// live, the answer is its cached item list and nothing is launched.
    /// Where it is not, the answer describes the launch: the identity, the
    /// permission manifest and the state of the command bridge.
    pub fn init_plugin(
        &self,
        name: String,
        plugin_config: PluginConfig,
        data_dir_path: String,
        platform: &str,
        env: &Vec<(String, String)>,
    ) -> (step: InitStep)
        requires
            self.wf(),
        ensures
            step@ == init_step(
                self@,
                name@,
                plugin_config@,
                data_dir_path@,
                platform@,
                env.deep_view(),
            ),
    {
        let identifier = PluginIdentifier::from_map(name.clone(), &plugin_config.config);
        match self.find(&identifier) {
            Some(i) => InitStep::Ready(Self::items_of(&self.entries[i])),
            None => {
                let manifest = build_manifest(&plugin_config, data_dir_path.as_str(), platform, env);
                let cli = CliConfig { enabled: plugin_config.cli, plugin_name: name, data_dir_path };
                InitStep::Launch { identifier, manifest, cli }
            },
        }
    }

    /// A copy of the items cached for an entry.
    fn items_of(entry: &Entry<I>) -> (items: Vec<PluginItem>)
        ensures
            items.deep_view() == cached_items(entry_view(*entry)),
    {
        match &entry.cache {
            Some(cached) => copy_items(cached),
            None => {
                let items: Vec<PluginItem> = Vec::new();
                proof {
                    assert(items.deep_view() =~= Seq::<ItemView>::empty());
                }
                items
            },
        }
    }

    /// The second step of an initialization: the outcome of the launch.
    ///
    /// A module that started is entered under `identifier`, with the items
    /// that its `init` declared as its cache, and those items are the
    /// result. Where the launch failed, or the output of `init` was no item
    /// list, the call fails and nothing is entered. Where the identity is
    /// live already, its entry stays and its cached items are the result.
    pub fn complete_init(
        &mut self,
        identifier: PluginIdentifier,
        outcome: LaunchOutcome<I>,
    ) -> (result: Result<Vec<PluginItem>, InitError>)
        requires
            old(self).wf(),
        ensures
            final(self).wf(),
            final(self)@ == registry_after_init(old(self)@, identifier@, outcome@),
            match result {
                Ok(items) => init_result(old(self)@, identifier@, outcome@) == Ok::<
                    Seq<ItemView>,
                    InitErrorView,
                >(items.deep_view()),
                Err(error) => init_result(old(self)@, identifier@, outcome@) == Err::<
                    Seq<ItemView>,
                    InitErrorView,
                >(error@),
            },
    {
        match self.find(&identifier) {
            Some(i) => {
                return Ok(Self::items_of(&self.entries[i]));
            },
            None => {},
        }
        match outcome {
            LaunchOutcome::Failed(words) => Err(InitError::InstantiationFailed(words)),
            LaunchOutcome::Started { instance, init_output, parsed } => {
                let cache: Option<Vec<PluginItem>> = if init_output.as_str().unicode_len() == 0 {
                    None
                } else {
                    match parsed {
                        Ok(items) => Some(items),
                        Err(words) => {
                            return Err(InitError::MalformedItems(words));
                        },
                    }
                };
                let entry = Entry { id: identifier, instance, cache };
                let items = Self::items_of(&entry);
                proof {
                    lemma_view_push(self.entries@, entry);
                }
                self.entries.push(entry);
                Ok(items)
            },
        }
    }

    /// The live instance whose `filter` is to be called for a query, or
    /// `PluginNotFound`.
    pub fn filter_target(
        &mut self,
        name: String,
        config: &Vec<(String, String)>,
    ) -> (found: Result<&mut I, QueryError>)
        requires
            old(self).wf(),
        ensures
            final(self).wf(),
            found is Ok == old(self)@.dom().contains(identity_of(name@, config.deep_view())),
            found matches Err(error) ==> error == QueryError::PluginNotFound
                && final(self)@ == old(self)@,
            found matches Ok(instance) ==> {
                let id = identity_of(name@, config.deep_view());
                &&& *instance == old(self)@[id].instance
                &&& final(self)@ == old(self)@.insert(
                    id,
                    EntryView { instance: *final(instance), cache: old(self)@[id].cache },
                )
            },
    {
        let identifier = PluginIdentifier::from_map(name, config);
        match self.instance_mut(&identifier) {
            Some(instance) => Ok(instance),
            None => Err(QueryError::PluginNotFound),
        }
    }

    /// Answers a query, given what the module's `filter` came back with.
    ///
    /// A list that the module returned is the answer, unless it is empty.
    /// In every other case the answer is the cached items whose name or
    /// description holds the query, letter case ignored. The cache stays as
    /// it is.
    pub fn filter_plugin(
        &self,
        name: String,
        config: Vec<(String, String)>,
        query: String,
        reply: Result<Option<Vec<PluginItem>>, String>,
    ) -> (result: Result<Vec<PluginItem>, QueryError>)
        requires
            self.wf(),
        ensures
            match result {
                Ok(items) => query_result(
                    self@,
                    identity_of(name@, config.deep_view()),
                    query@,
                    reply_view(reply),
                ) == Ok::<Seq<ItemView>, QueryErrorView>(items.deep_view()),
                Err(error) => query_result(
                    self@,
                    identity_of(name@, config.deep_view()),
                    query@,
                    reply_view(reply),
                ) == Err::<Seq<ItemView>, QueryErrorView>(error@),
            },
    {
        let identifier = PluginIdentifier::from_map(name, &config);
        let slot = match self.find(&identifier) {
            Some(i) => i,
            None => {
                return Err(QueryError::PluginNotFound);
            },
        };
        match reply {
            Err(words) => Err(QueryError::CallFailed(words)),
            Ok(Some(items)) => {
                if items.len() > 0 {
                    Ok(items)
                } else {
                    Ok(Self::search_cache(&self.entries[slot], query.as_str()))
                }
            },
            Ok(None) => Ok(Self::search_cache(&self.entries[slot], query.as_str())),
        }
    }

    /// The cached items of an entry that match a query.
    fn search_cache(entry: &Entry<I>, query: &str) -> (items: Vec<PluginItem>)
        ensures
            items.deep_view() == matching_items(cached_items(entry_view(*entry)), query@),
    {
        match &entry.cache {
            Some(cached) => filter_items(cached, query),
            None => {
                let none: Vec<PluginItem> = Vec::new();
                let found = filter_items(&none, query);
                proof {
                    assert(none.deep_view() =~= Seq::<ItemView>::empty());
                }
                found
            },
        }
    }

    /// The live instance to which a selection is to be reported, or
    /// `PluginNotFound`.
    pub fn select(
        &mut self,
        name: String,
        config: Vec<(String, String)>,
    ) -> (found: Result<&mut I, SelectionError>)
        requires
            old(self).wf(),
        ensures
            final(self).wf(),
            found is Ok == old(self)@.dom().contains(identity_of(name@, config.deep_view())),
            found matches Err(error) ==> error == SelectionError::PluginNotFound
                && final(self)@ == old(self)@,
            found matches Ok(instance) ==> {
                let id = identity_of(name@, config.deep_view());
                &&& *instance == old(self)@[id].instance
                &&& final(self)@ == old(self)@.insert(
                    id,
                    EntryView { instance: *final(instance), cache: old(self)@[id].cache },
                )
            },
    {
        let identifier = PluginIdentifier::from_map(name, &config);
        match self.instance_mut(&identifier) {
            Some(instance) => Ok(instance),
            None => Err(SelectionError::PluginNotFound),
        }
    }
}

/// The outcome of reporting a selection, given what the module's
/// `on_select` came back with: success, or the sandbox's words.
pub fn selection_result(reply: Result<(), String>) -> (result: Result<(), SelectionError>)
    ensures
        match reply {
            Ok(_) => result is Ok,
            Err(words) => result matches Err(SelectionError::CallFailed(told)) && told@ == words@,
        },
{
    match reply {
        Ok(_) => Ok(()),
        Err(words) => Err(SelectionError::CallFailed(words)),
    }
}

} // verus!
