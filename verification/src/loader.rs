//! The plugin manager's bookkeeping: which plugins are loaded under which
//! names, the commands they offer, how many events in a row each has failed
//! on, which files in the plugin directory are plugins, and which event names
//! reach them.
use vstd::prelude::*;

use crate::keyed::{
    distinct_keys, find_key, has_key, key_index, lemma_key_index_unique, lemma_push_fresh,
    lemma_update_same_key,
};
use crate::paths::{
    file_extension, file_extension_of, file_stem_of, has_plain_file_name, is_part_of,
    lacks_file_name, last_index_of, last_segment, lemma_last_index_bounds, lemma_last_index_is,
    plugin_name,
};
use crate::text::str_eq;

verus! {

/// The kinds of events that plugins handle.
#[derive(Debug, Clone, Copy, PartialEq, Eq, Structural)]
pub enum EventKind {
    Ready,
    MessageCreate,
    InteractionCreate,
    GuildMemberAdd,
    GuildMemberRemove,
    ReactionAdd,
    VoiceStateUpdate,
}

/// The event kind that an event name stands for; other names stand for none.
pub open spec fn event_kind_of(name: Seq<char>) -> Option<EventKind> {
    if name == "ready"@ {
        Some(EventKind::Ready)
    } else if name == "message-create"@ {
        Some(EventKind::MessageCreate)
    } else if name == "interaction-create"@ {
        Some(EventKind::InteractionCreate)
    } else if name == "guild-member-add"@ {
        Some(EventKind::GuildMemberAdd)
    } else if name == "guild-member-remove"@ {
        Some(EventKind::GuildMemberRemove)
    } else if name == "reaction-add"@ {
        Some(EventKind::ReactionAdd)
    } else if name == "voice-state-update"@ {
        Some(EventKind::VoiceStateUpdate)
    } else {
        None
    }
}

/// Reads an event name; `dispatch_event` hands nothing to the plugins for a
/// name that stands for no event kind.
pub fn event_kind(name: &str) -> (r: Option<EventKind>)
    ensures
        r == event_kind_of(name@),
{
    if str_eq(name, "ready") {
        Some(EventKind::Ready)
    } else if str_eq(name, "message-create") {
        Some(EventKind::MessageCreate)
    } else if str_eq(name, "interaction-create") {
        Some(EventKind::InteractionCreate)
    } else if str_eq(name, "guild-member-add") {
        Some(EventKind::GuildMemberAdd)
    } else if str_eq(name, "guild-member-remove") {
        Some(EventKind::GuildMemberRemove)
    } else if str_eq(name, "reaction-add") {
        Some(EventKind::ReactionAdd)
    } else if str_eq(name, "voice-state-update") {
        Some(EventKind::VoiceStateUpdate)
    } else {
        None
    }
}

/// The default plugin directory, used when `PLUGIN_DIR` is not set.
pub open spec fn default_plugin_dir() -> Seq<char> {
    seq!['.', '/', 'p', 'l', 'u', 'g', 'i', 'n', 's']
}

/// The plugin directory: the value of `PLUGIN_DIR` where it is set (the
/// caller reads the environment), else `./plugins`.
pub fn plugin_dir(plugin_dir_var: Option<String>) -> (r: String)
    ensures
        match plugin_dir_var {
            Some(d) => r@ == d@,
            None => r@ == default_plugin_dir(),
        },
{
    match plugin_dir_var {
        Some(d) => d,
        None => {
            let r = String::from_str("./plugins");
            proof {
                reveal_strlit("./plugins");
            }
            r
        },
    }
}

/// A file that holds a plugin: its extension is `wasm`.
pub open spec fn is_plugin_file(name: Seq<char>) -> bool {
    file_extension_of(name) == Some("wasm"@)
}

/// A file holds a plugin exactly when its name ends in `.wasm` with
/// something before it, whatever that is (`music.v2.wasm` too).
pub proof fn lemma_plugin_files_end_in_wasm(name: Seq<char>)
    ensures
        is_plugin_file(name) <==> (name.len() > 5 && name.skip(name.len() - 5) == ".wasm"@),
{
    reveal_strlit(".wasm");
    reveal_strlit("wasm");
    let n = name.len() as int;
    if n > 5 && name.skip(n - 5) == ".wasm"@ {
        assert(name[n - 5] == name.skip(n - 5)[0]);
        assert forall|j: int| n - 5 < j < n implies name[j] != '.' by {
            assert(name[j] == name.skip(n - 5)[j - (n - 5)]);
        }
        lemma_last_index_is(name, '.', n - 5);
        assert(name != seq!['.', '.']);
        assert(name.skip(n - 4) =~= "wasm"@) by {
            assert forall|j: int| 0 <= j < 4 implies name.skip(n - 4)[j] == "wasm"@[j] by {
                assert(name.skip(n - 4)[j] == name.skip(n - 5)[j + 1]);
            }
        }
    }
    if is_plugin_file(name) {
        let i = last_index_of(name, '.');
        lemma_last_index_bounds(name, '.');
        assert(name.skip(i + 1) == "wasm"@);
        assert(n - i - 1 == 4);
        assert(name.skip(n - 5) =~= ".wasm"@) by {
            assert forall|j: int| 0 <= j < 5 implies name.skip(n - 5)[j] == ".wasm"@[j] by {
                if j > 0 {
                    assert(name.skip(n - 5)[j] == name.skip(i + 1)[j - 1]);
                }
            }
        }
    }
}

/// The plugin files among the names of a directory's entries, in order.
pub fn select_plugin_files(names: Vec<String>) -> (r: Vec<String>)
    ensures
        r@.map_values(|n: String| n@) == names@.map_values(|n: String| n@).filter(
            |n: Seq<char>| is_plugin_file(n),
        ),
{
    let ghost views = names@.map_values(|n: String| n@);
    let ghost keep = |n: Seq<char>| is_plugin_file(n);
    let mut r: Vec<String> = Vec::new();
    let n = names.len();
    let mut i: usize = 0;
    while i < n
        invariant
            n == names@.len(),
            views == names@.map_values(|n: String| n@),
            keep == (|n: Seq<char>| is_plugin_file(n)),
            0 <= i <= n,
            r@.map_values(|n: String| n@) == views.take(i as int).filter(keep),
        decreases n - i,
    {
        let name = &names[i];
        let ext = file_extension(name.as_str());
        let wasm = match ext {
            Some(e) => str_eq(e.as_str(), "wasm"),
            None => false,
        };
        proof {
            assert(views.take(i + 1).drop_last() =~= views.take(i as int));
            assert(views.take(i + 1).last() == name@);
            reveal(Seq::filter);
        }
        if wasm {
            r.push(name.clone());
            assert(r@.map_values(|n: String| n@) =~= views.take(i as int).filter(keep).push(name@));
        } else {
            assert(r@.map_values(|n: String| n@) =~= views.take(i + 1).filter(keep));
        }
        i = i + 1;
    }
    assert(views.take(n as int) =~= views);
    r
}

/// The loaded plugins of one plugin manager: each under its name, with the
/// commands it registered when it was loaded and the number of events in a
/// row it has failed on. `P` is the running plugin, `C` a command
/// description.
pub struct PluginManager<P, C> {
    entries: Vec<(String, Vec<C>)>,
    plugins: Vec<P>,
    failures: Vec<u64>,
}

/// A plugin that fails on this many events in a row (an error, a trap, a
/// time-out) is unloaded.
pub const MAX_CONSECUTIVE_FAILURES: u64 = 5;

/// How a plugin stands after the outcome of one event it was handed: `None`
/// where it is not loaded, else the number of events in a row it has failed
/// on. A success sets that number back to zero; the failure that brings it
/// to `MAX_CONSECUTIVE_FAILURES` unloads the plugin.
pub open spec fn after_outcome(standing: Option<nat>, succeeded: bool) -> Option<nat> {
    match standing {
        None => None,
        Some(c) => if succeeded {
            Some(0)
        } else if c + 1 >= MAX_CONSECUTIVE_FAILURES {
            None
        } else {
            Some((c + 1) as nat)
        },
    }
}

/// How a plugin stands after the outcomes of several events, in order.
pub open spec fn after_outcomes(standing: Option<nat>, outcomes: Seq<bool>) -> Option<nat>
    decreases outcomes.len(),
{
    if outcomes.len() == 0 {
        standing
    } else {
        after_outcome(after_outcomes(standing, outcomes.drop_last()), outcomes.last())
    }
}

/// After `j` failures in a row, a plugin still loaded has failed at least `j`
/// times in a row.
proof fn lemma_failure_run(standing: Option<nat>, outcomes: Seq<bool>, j: int)
    requires
        0 <= j <= outcomes.len(),
        forall|i: int| outcomes.len() - j <= i < outcomes.len() ==> !#[trigger] outcomes[i],
    ensures
        after_outcomes(standing, outcomes) matches Some(c) ==> c >= j,
        j > 0 ==> (after_outcomes(standing, outcomes) matches Some(c) ==> c
            < MAX_CONSECUTIVE_FAILURES),
    decreases outcomes.len(),
{
    if j > 0 {
        let rest = outcomes.drop_last();
        assert forall|i: int| rest.len() - (j - 1) <= i < rest.len() implies !#[trigger] rest[i] by {
            assert(rest[i] == outcomes[i]);
        }
        assert(!outcomes[outcomes.len() - 1]);
        lemma_failure_run(standing, rest, j - 1);
    }
}

/// A plugin whose last `MAX_CONSECUTIVE_FAILURES` outcomes are all failures
/// is no longer loaded, whatever came before.
pub proof fn lemma_consecutive_failures_unload(standing: Option<nat>, outcomes: Seq<bool>)
    requires
        outcomes.len() >= MAX_CONSECUTIVE_FAILURES,
        forall|i: int|
            outcomes.len() - MAX_CONSECUTIVE_FAILURES <= i < outcomes.len() ==> !#[trigger] outcomes[i],
    ensures
        after_outcomes(standing, outcomes) is None,
{
    lemma_failure_run(standing, outcomes, MAX_CONSECUTIVE_FAILURES as int);
}

/// A loaded plugin that handles an event stays loaded, with no failures
/// counted against it.
pub proof fn lemma_success_resets(standing: Option<nat>, outcomes: Seq<bool>)
    requires
        outcomes.len() > 0,
        outcomes.last(),
        after_outcomes(standing, outcomes.drop_last()) is Some,
    ensures
        after_outcomes(standing, outcomes) == Some(0nat),
{
}

/// Somewhere among the outcomes there are `n` failures in a row.
pub open spec fn has_failure_run(outcomes: Seq<bool>, n: int) -> bool {
    exists|i: int|
        0 <= i && i + n <= outcomes.len() && #[trigger] all_failures(outcomes, i, i + n)
}

/// The outcomes from position `from` up to `to` are all failures.
pub open spec fn all_failures(outcomes: Seq<bool>, from: int, to: int) -> bool {
    forall|j: int| from <= j < to ==> !#[trigger] outcomes[j]
}

/// The number of failures at the end of the outcomes, after the last success.
pub open spec fn trailing_failures(outcomes: Seq<bool>) -> nat
    decreases outcomes.len(),
{
    if outcomes.len() == 0 || outcomes.last() {
        0
    } else {
        trailing_failures(outcomes.drop_last()) + 1
    }
}

/// The trailing failures are failures, and the last `k` outcomes being
/// failures makes at least `k` trailing ones.
proof fn lemma_trailing_failures(outcomes: Seq<bool>, k: int)
    requires
        0 <= k <= outcomes.len(),
    ensures
        trailing_failures(outcomes) <= outcomes.len(),
        all_failures(outcomes, outcomes.len() - trailing_failures(outcomes), outcomes.len() as int),
        all_failures(outcomes, outcomes.len() - k, outcomes.len() as int) ==> trailing_failures(
            outcomes,
        ) >= k,
    decreases outcomes.len(),
{
    if outcomes.len() > 0 {
        let rest = outcomes.drop_last();
        let km = if k > 0 { k - 1 } else { 0 };
        lemma_trailing_failures(rest, km);
        if !outcomes.last() {
            assert forall|j: int|
                outcomes.len() - trailing_failures(outcomes) <= j < outcomes.len() implies !#[trigger] outcomes[j] by {
                if j < outcomes.len() - 1 {
                    assert(outcomes[j] == rest[j]);
                }
            }
        }
        if k > 0 && all_failures(outcomes, outcomes.len() - k, outcomes.len() as int) {
            assert(!outcomes[outcomes.len() - 1]);
            assert forall|j: int| rest.len() - km <= j < rest.len() implies !#[trigger] rest[j] by {
                assert(rest[j] == outcomes[j]);
            }
        }
    }
}

/// A plugin loaded afresh is unloaded exactly when `MAX_CONSECUTIVE_FAILURES`
/// of its outcomes in a row are failures; until then it stays loaded with
/// the failures since its last success counted.
pub proof fn lemma_unloaded_exactly_after_failure_run(outcomes: Seq<bool>)
    ensures
        after_outcomes(Some(0nat), outcomes) == if has_failure_run(
            outcomes,
            MAX_CONSECUTIVE_FAILURES as int,
        ) {
            None
        } else {
            Some(trailing_failures(outcomes))
        },
    decreases outcomes.len(),
{
    let n = MAX_CONSECUTIVE_FAILURES as int;
    if outcomes.len() > 0 {
        let rest = outcomes.drop_last();
        let last = outcomes.len() - 1;
        lemma_unloaded_exactly_after_failure_run(rest);
        lemma_trailing_failures(rest, 0);
        if has_failure_run(rest, n) {
            let i = choose|i: int| 0 <= i && i + n <= rest.len() && #[trigger] all_failures(rest, i, i + n);
            assert forall|j: int| i <= j < i + n implies !#[trigger] outcomes[j] by {
                assert(outcomes[j] == rest[j]);
            }
            assert(all_failures(outcomes, i, i + n));
        } else {
            if trailing_failures(rest) >= n {
                let i = rest.len() - n;
                assert(all_failures(rest, i, i + n));
            }
            let t = trailing_failures(rest);
            if has_failure_run(outcomes, n) {
                let i = choose|i: int|
                    0 <= i && i + n <= outcomes.len() && #[trigger] all_failures(outcomes, i, i + n);
                if i + n <= rest.len() {
                    assert forall|j: int| i <= j < i + n implies !#[trigger] rest[j] by {
                        assert(outcomes[j] == rest[j]);
                    }
                    assert(all_failures(rest, i, i + n));
                } else {
                    assert(!outcomes[last]);
                    lemma_trailing_failures(outcomes, n);
                    assert(trailing_failures(outcomes) == t + 1);
                }
            }
            if !outcomes[last] && t + 1 >= n {
                lemma_trailing_failures(outcomes, 0);
                assert(trailing_failures(outcomes) == t + 1);
                let i = outcomes.len() - n;
                assert(all_failures(outcomes, i, i + n));
            }
        }
    } else {
        assert(!has_failure_run(outcomes, n));
    }
}

/// Fewer than `MAX_CONSECUTIVE_FAILURES` failures in a row since a plugin was
/// loaded or last succeeded leave it loaded, with those failures counted.
pub proof fn lemma_fewer_failures_keep_loaded(outcomes: Seq<bool>)
    requires
        outcomes.len() < MAX_CONSECUTIVE_FAILURES,
        forall|i: int| 0 <= i < outcomes.len() ==> !#[trigger] outcomes[i],
    ensures
        after_outcomes(Some(0nat), outcomes) == Some(outcomes.len()),
    decreases outcomes.len(),
{
    if outcomes.len() > 0 {
        let rest = outcomes.drop_last();
        assert forall|i: int| 0 <= i < rest.len() implies !#[trigger] rest[i] by {
            assert(rest[i] == outcomes[i]);
        }
        assert(!outcomes[outcomes.len() - 1]);
        lemma_fewer_failures_keep_loaded(rest);
    }
}

/// The plugins under each name, from the names with their commands and the
/// running plugins at the same positions.
pub open spec fn plugins_view<P, C>(entries: Seq<(String, Vec<C>)>, plugins: Seq<P>) -> Map<
    Seq<char>,
    (P, Seq<C>),
> {
    Map::new(
        |k: Seq<char>| has_key(entries, k),
        |k: Seq<char>| (plugins[key_index(entries, k)], entries[key_index(entries, k)].1@),
    )
}

/// The names of a list of plugins, in order.
pub open spec fn names_of<C>(s: Seq<(String, Vec<C>)>) -> Seq<Seq<char>> {
    s.map_values(|e: (String, Vec<C>)| e.0@)
}

/// The commands of the named plugins, one plugin after another.
pub open spec fn commands_of<P, C>(m: Map<Seq<char>, (P, Seq<C>)>, names: Seq<Seq<char>>) -> Seq<C>
    decreases names.len(),
{
    if names.len() == 0 {
        Seq::empty()
    } else {
        commands_of(m, names.drop_last()) + m[names.last()].1
    }
}

/// The commands of a list of plugins followed by another are those of the
/// first list followed by those of the second; the commands of one plugin
/// are its own.
pub proof fn lemma_commands_of_concat<P, C>(
    m: Map<Seq<char>, (P, Seq<C>)>,
    a: Seq<Seq<char>>,
    b: Seq<Seq<char>>,
)
    ensures
        commands_of(m, a + b) == commands_of(m, a) + commands_of(m, b),
        forall|k: Seq<char>| #[trigger] commands_of(m, seq![k]) == m[k].1,
    decreases b.len(),
{
    assert forall|k: Seq<char>| #[trigger] commands_of(m, seq![k]) == m[k].1 by {
        assert(seq![k].drop_last() =~= Seq::<Seq<char>>::empty());
        assert(seq![k].last() == k);
        assert(commands_of(m, Seq::<Seq<char>>::empty()) == Seq::<C>::empty());
        assert(Seq::<C>::empty() + m[k].1 =~= m[k].1);
    }
    if b.len() == 0 {
        assert(a + b =~= a);
        assert(commands_of(m, a) + Seq::<C>::empty() =~= commands_of(m, a));
    } else {
        lemma_commands_of_concat(m, a, b.drop_last());
        assert((a + b).drop_last() =~= a + b.drop_last());
        assert((a + b).last() == b.last());
        assert(commands_of(m, a + b) =~= commands_of(m, a) + commands_of(m, b));
    }
}

/// The plugins after loading each of `loaded` in turn, a later one replacing
/// an earlier one of the same name.
pub open spec fn register_each<P, C>(m: Map<Seq<char>, (P, Seq<C>)>, loaded: Seq<(String, P, Vec<C>)>) -> Map<
    Seq<char>,
    (P, Seq<C>),
>
    decreases loaded.len(),
{
    if loaded.len() == 0 {
        m
    } else {
        let e = loaded.last();
        register_each(m, loaded.drop_last()).insert(e.0@, (e.1, e.2@))
    }
}

/// In a batch, the plugin kept under a name is the last one of that name;
/// names that the batch does not hold keep what they had.
pub proof fn lemma_register_each_last_wins<P, C>(
    m: Map<Seq<char>, (P, Seq<C>)>,
    loaded: Seq<(String, P, Vec<C>)>,
    name: Seq<char>,
)
    ensures
        (forall|i: int| 0 <= i < loaded.len() ==> (#[trigger] loaded[i]).0@ != name) ==> register_each(
            m,
            loaded,
        ).contains_key(name) == m.contains_key(name) && register_each(m, loaded)[name] == m[name],
        forall|i: int|
            0 <= i < loaded.len() && (#[trigger] loaded[i]).0@ == name && (forall|j: int|
                i < j < loaded.len() ==> loaded[j].0@ != name) ==> register_each(m, loaded).contains_key(
                name,
            ) && register_each(m, loaded)[name] == (loaded[i].1, loaded[i].2@),
    decreases loaded.len(),
{
    if loaded.len() > 0 {
        let rest = loaded.drop_last();
        lemma_register_each_last_wins(m, rest, name);
        assert forall|i: int|
            0 <= i < loaded.len() && (#[trigger] loaded[i]).0@ == name && (forall|j: int|
                i < j < loaded.len() ==> loaded[j].0@ != name) implies register_each(m, loaded).contains_key(
            name,
        ) && register_each(m, loaded)[name] == (loaded[i].1, loaded[i].2@) by {
            if i < loaded.len() - 1 {
                assert(loaded[loaded.len() - 1].0@ != name);
                assert(rest[i] == loaded[i]);
                assert forall|j: int| i < j < rest.len() implies rest[j].0@ != name by {
                    assert(rest[j] == loaded[j]);
                }
            }
        }
        if forall|i: int| 0 <= i < loaded.len() ==> (#[trigger] loaded[i]).0@ != name {
            assert forall|i: int| 0 <= i < rest.len() implies (#[trigger] rest[i]).0@ != name by {
                assert(rest[i] == loaded[i]);
            }
            assert(loaded[loaded.len() - 1].0@ != name);
        }
    }
}

/// After a batch load, the names loaded are those loaded before and those of
/// the batch, and nothing else.
pub proof fn lemma_register_each_names<P, C>(
    m: Map<Seq<char>, (P, Seq<C>)>,
    loaded: Seq<(String, P, Vec<C>)>,
    name: Seq<char>,
)
    ensures
        register_each(m, loaded).contains_key(name) <==> (m.contains_key(name) || exists|i: int|
            0 <= i < loaded.len() && (#[trigger] loaded[i]).0@ == name),
    decreases loaded.len(),
{
    if loaded.len() > 0 {
        let rest = loaded.drop_last();
        lemma_register_each_names(m, rest, name);
        if exists|i: int| 0 <= i < rest.len() && (#[trigger] rest[i]).0@ == name {
            let i = choose|i: int| 0 <= i < rest.len() && (#[trigger] rest[i]).0@ == name;
            assert(loaded[i] == rest[i]);
        }
        if exists|i: int| 0 <= i < loaded.len() && (#[trigger] loaded[i]).0@ == name {
            let i = choose|i: int| 0 <= i < loaded.len() && (#[trigger] loaded[i]).0@ == name;
            if i < rest.len() {
                assert(rest[i] == loaded[i]);
            }
        }
    }
}

/// Unloading a plugin right after loading it leaves every other plugin as
/// it was, and none under its name.
pub proof fn lemma_unload_after_register<P, C>(
    m: Map<Seq<char>, (P, Seq<C>)>,
    name: Seq<char>,
    plugin: P,
    commands: Seq<C>,
)
    ensures
        m.insert(name, (plugin, commands)).remove(name) == m.remove(name),
        !m.insert(name, (plugin, commands)).remove(name).contains_key(name),
{
    assert(m.insert(name, (plugin, commands)).remove(name) =~= m.remove(name));
}

/// Each event kind has one name.
pub proof fn lemma_event_kind_names_distinct(a: Seq<char>, b: Seq<char>)
    requires
        event_kind_of(a) is Some,
        event_kind_of(a) == event_kind_of(b),
    ensures
        a == b,
{
}

impl<P, C> View for PluginManager<P, C> {
    type V = Map<Seq<char>, (P, Seq<C>)>;

    closed spec fn view(&self) -> Map<Seq<char>, (P, Seq<C>)> {
        plugins_view(self.entries@, self.plugins@)
    }
}

impl<P, C> PluginManager<P, C> {
    #[verifier::type_invariant]
    spec fn well_formed(self) -> bool {
        &&& distinct_keys(self.entries@)
        &&& self.entries@.len() == self.plugins@.len()
        &&& self.entries@.len() == self.failures@.len()
        &&& forall|i: int|
            0 <= i < self.failures@.len() ==> #[trigger] self.failures@[i] < MAX_CONSECUTIVE_FAILURES
    }

    /// How the plugin under `name` stands: `None` where none is loaded, else
    /// the number of events in a row it has failed on.
    pub closed spec fn failure_state(self, name: Seq<char>) -> Option<nat> {
        if has_key(self.entries@, name) {
            Some(self.failures@[key_index(self.entries@, name)] as nat)
        } else {
            None
        }
    }

    /// A plugin stands somewhere exactly when it is loaded.
    pub proof fn lemma_failure_state_loaded(self, name: Seq<char>)
        ensures
            self.failure_state(name) is Some <==> self@.contains_key(name),
    {
    }

    /// The names of the loaded plugins, in the order in which they are
    /// listed and handed events.
    pub closed spec fn order(self) -> Seq<Seq<char>> {
        names_of(self.entries@)
    }

    /// A manager with no plugins loaded.
    pub fn new() -> (r: PluginManager<P, C>)
        ensures
            r@ == Map::<Seq<char>, (P, Seq<C>)>::empty(),
            r.order() == Seq::<Seq<char>>::empty(),
            forall|k: Seq<char>| #[trigger] r.failure_state(k) is None,
    {
        let r = PluginManager { entries: Vec::new(), plugins: Vec::new(), failures: Vec::new() };
        assert(r@ =~= Map::<Seq<char>, (P, Seq<C>)>::empty());
        assert(r.order() =~= Seq::<Seq<char>>::empty());
        r
    }

    /// The name a plugin file is known by (see `plugin_name`).
    pub fn plugin_name(path: &str) -> (r: String)
        ensures
            has_plain_file_name(path@) ==> r@ == file_stem_of(last_segment(path@)),
            lacks_file_name(path@) ==> r@ == "unknown"@,
            r@ == "unknown"@ || exists|name: Seq<char>|
                name.len() > 0 && !name.contains('/') && is_part_of(name, path@) && r@
                    == file_stem_of(name),
    {
        plugin_name(path)
    }

    /// Keeps a freshly loaded plugin under `name`, with no failures counted;
    /// a plugin already loaded under that name is dropped in its favour and
    /// keeps its place in the order.
    pub fn register(&mut self, name: String, plugin: P, commands: Vec<C>)
        ensures
            final(self)@ == old(self)@.insert(name@, (plugin, commands@)),
            old(self)@.contains_key(name@) ==> final(self).order() == old(self).order(),
            !old(self)@.contains_key(name@) ==> final(self).order() == old(self).order().push(name@),
            final(self).failure_state(name@) == Some(0nat),
            forall|k: Seq<char>|
                k != name@ ==> #[trigger] final(self).failure_state(k) == old(self).failure_state(k),
    {
        proof {
            use_type_invariant(&*self);
        }
        let mut taken = PluginManager::new();
        std::mem::swap(&mut taken, self);
        let PluginManager { mut entries, mut plugins, mut failures } = taken;
        let ghost s = entries@;
        let ghost ps = plugins@;
        let ghost fs = failures@;
        assert(plugins_view(s, ps) == old(self)@);
        match find_key(&entries, name.as_str()) {
            None => {
                let ghost e = (name, commands);
                proof {
                    lemma_push_fresh(s, e);
                }
                entries.push((name, commands));
                plugins.push(plugin);
                failures.push(0);
                proof {
                    let t = entries@;
                    let pt = plugins@;
                    assert forall|k: Seq<char>| has_key(s, k) implies t[key_index(t, k)] == s[
                        key_index(s, k)] && pt[key_index(t, k)] == ps[key_index(s, k)] by {
                    }
                    assert(plugins_view(t, pt) =~= plugins_view(s, ps).insert(e.0@, (plugin, e.1@)));
                    assert(names_of(t) =~= names_of(s).push(e.0@));
                }
            },
            Some(i) => {
                proof {
                    lemma_key_index_unique(s, i as int);
                }
                let ghost e = (name, commands);
                proof {
                    lemma_update_same_key(s, i as int, e);
                }
                entries.set(i, (name, commands));
                plugins.set(i, plugin);
                failures.set(i, 0);
                proof {
                    let t = entries@;
                    let pt = plugins@;
                    assert(t == s.update(i as int, e));
                    assert forall|k: Seq<char>| has_key(s, k) && k != e.0@ implies t[key_index(t, k)]
                        == s[key_index(s, k)] && pt[key_index(t, k)] == ps[key_index(s, k)] by {
                        assert(key_index(s, k) != i);
                    }
                    lemma_key_index_unique(t, i as int);
                    assert(plugins_view(t, pt) =~= plugins_view(s, ps).insert(e.0@, (plugin, e.1@)));
                    assert(names_of(t) =~= names_of(s));
                }
            },
        }
        *self = PluginManager { entries, plugins, failures };
    }

    /// Keeps each of a batch of freshly loaded plugins in turn, as the start-up
    /// scan does.
    pub fn register_all(&mut self, loaded: Vec<(String, P, Vec<C>)>)
        ensures
            final(self)@ == register_each(old(self)@, loaded@),
            forall|k: Seq<char>|
                #[trigger] final(self).failure_state(k) == if exists|i: int|
                    0 <= i < loaded@.len() && (#[trigger] loaded@[i]).0@ == k {
                    Some(0nat)
                } else {
                    old(self).failure_state(k)
                },
    {
        let ghost all = loaded@;
        let mut rest = loaded;
        let ghost mut done: int = 0;
        while rest.len() > 0
            invariant
                0 <= done <= all.len(),
                rest@ == all.skip(done),
                self@ == register_each(old(self)@, all.take(done)),
                forall|k: Seq<char>|
                    #[trigger] self.failure_state(k) == if exists|i: int|
                        0 <= i < done && (#[trigger] all[i]).0@ == k {
                        Some(0nat)
                    } else {
                        old(self).failure_state(k)
                    },
            decreases rest@.len(),
        {
            let (name, plugin, commands) = rest.remove(0);
            proof {
                assert(all.take(done + 1).drop_last() =~= all.take(done));
                assert(all.take(done + 1).last() == all[done]);
            }
            let ghost before = *self;
            let ghost key = name@;
            proof {
                assert(all[done].0@ == key);
            }
            self.register(name, plugin, commands);
            proof {
                assert forall|k: Seq<char>|
                    #[trigger] self.failure_state(k) == if exists|i: int|
                        0 <= i < done + 1 && (#[trigger] all[i]).0@ == k {
                        Some(0nat)
                    } else {
                        old(self).failure_state(k)
                    } by {
                    if k != key {
                        assert(self.failure_state(k) == before.failure_state(k));
                        if exists|i: int| 0 <= i < done + 1 && (#[trigger] all[i]).0@ == k {
                            let i = choose|i: int| 0 <= i < done + 1 && (#[trigger] all[i]).0@ == k;
                            assert(i != done);
                        }
                    } else {
                        assert(all[done].0@ == k);
                    }
                }
                done = done + 1;
                assert(rest@ =~= all.skip(done));
            }
        }
        assert(all.take(done) =~= all);
    }

    /// Drops the plugin loaded under `name`, if any.
    pub fn unload(&mut self, name: &str)
        ensures
            final(self)@ == old(self)@.remove(name@),
            !old(self)@.contains_key(name@) ==> final(self).order() == old(self).order(),
            old(self)@.contains_key(name@) ==> exists|i: int|
                0 <= i < old(self).order().len() && old(self).order()[i] == name@
                    && final(self).order() == old(self).order().remove(i),
            final(self).failure_state(name@) is None,
            forall|k: Seq<char>|
                k != name@ ==> #[trigger] final(self).failure_state(k) == old(self).failure_state(k),
    {
        proof {
            use_type_invariant(&*self);
        }
        let mut taken = PluginManager::new();
        std::mem::swap(&mut taken, self);
        let PluginManager { mut entries, mut plugins, mut failures } = taken;
        let ghost s = entries@;
        let ghost ps = plugins@;
        let ghost fs = failures@;
        assert(plugins_view(s, ps) == old(self)@);
        let ghost mut removed_at: int = -1;
        match find_key(&entries, name) {
            None => {
                assert(plugins_view(s, ps) =~= plugins_view(s, ps).remove(name@));
            },
            Some(i) => {
                proof {
                    lemma_key_index_unique(s, i as int);
                }
                proof {
                    removed_at = i as int;
                }
                let _entry = entries.remove(i);
                let _plugin = plugins.remove(i);
                let _failures = failures.remove(i);
                proof {
                    let t = entries@;
                    let pt = plugins@;
                    let ft = failures@;
                    assert(ft =~= fs.remove(i as int));
                    assert(t =~= s.remove(i as int));
                    assert(names_of(t) =~= names_of(s).remove(i as int));
                    assert(names_of(s)[i as int] == name@);
                    assert(pt =~= ps.remove(i as int));
                    assert forall|a: int, b: int|
                        0 <= a < t.len() && 0 <= b < t.len() && a != b implies (#[trigger] t[a]).0@
                        != (#[trigger] t[b]).0@ by {
                        let a2 = if a < i { a } else { a + 1 };
                        let b2 = if b < i { b } else { b + 1 };
                        assert(t[a] == s[a2] && t[b] == s[b2]);
                    }
                    assert forall|k: Seq<char>| has_key(t, k) <==> (has_key(s, k) && k != name@) by {
                        if has_key(t, k) {
                            let a = choose|a: int| 0 <= a < t.len() && (#[trigger] t[a]).0@ == k;
                            let a2 = if a < i { a } else { a + 1 };
                            assert(t[a] == s[a2]);
                        }
                        if has_key(s, k) && k != name@ {
                            let a = key_index(s, k);
                            assert(a != i);
                            let a1 = if a < i { a } else { a - 1 };
                            assert(t[a1] == s[a]);
                        }
                    }
                    assert forall|k: Seq<char>| has_key(t, k) implies t[key_index(t, k)] == s[
                        key_index(s, k)] && pt[key_index(t, k)] == ps[key_index(s, k)] && ft[key_index(
                        t,
                        k,
                    )] == fs[key_index(s, k)] by {
                        let a = key_index(t, k);
                        let a2 = if a < i { a } else { a + 1 };
                        assert(t[a] == s[a2]);
                        assert(pt[a] == ps[a2]);
                        assert(ft[a] == fs[a2]);
                        lemma_key_index_unique(s, a2);
                    }
                    assert(plugins_view(t, pt) =~= plugins_view(s, ps).remove(name@));
                }
            },
        }
        *self = PluginManager { entries, plugins, failures };
        proof {
            if removed_at >= 0 {
                assert(old(self).order()[removed_at] == name@);
                assert(self.order() == old(self).order().remove(removed_at));
            } else {
                assert(self.order() == old(self).order());
            }
        }
    }

    /// Drops the plugin loaded from the file at `path`; gives the name it was
    /// known by.
    pub fn unload_by_path(&mut self, path: &str) -> (name: String)
        ensures
            final(self)@ == old(self)@.remove(name@),
            final(self).failure_state(name@) is None,
            forall|k: Seq<char>|
                k != name@ ==> #[trigger] final(self).failure_state(k) == old(self).failure_state(k),
            has_plain_file_name(path@) ==> name@ == file_stem_of(last_segment(path@)),
            lacks_file_name(path@) ==> name@ == "unknown"@,
            name@ == "unknown"@ || exists|n: Seq<char>|
                n.len() > 0 && !n.contains('/') && is_part_of(n, path@) && name@ == file_stem_of(n),
    {
        let name = plugin_name(path);
        self.unload(name.as_str());
        name
    }

    /// Records whether the plugin loaded under `name` handled an event it was
    /// handed (`succeeded`) or failed on it; the failure that makes
    /// `MAX_CONSECUTIVE_FAILURES` in a row unloads it. Gives whether it was
    /// unloaded. Under a name where nothing is loaded nothing changes.
    pub fn record_outcome(&mut self, name: &str, succeeded: bool) -> (unloaded: bool)
        ensures
            final(self).failure_state(name@) == after_outcome(
                old(self).failure_state(name@),
                succeeded,
            ),
            forall|k: Seq<char>|
                k != name@ ==> #[trigger] final(self).failure_state(k) == old(self).failure_state(k),
            unloaded <==> (old(self)@.contains_key(name@) && !final(self)@.contains_key(name@)),
            unloaded ==> final(self)@ == old(self)@.remove(name@) && exists|i: int|
                0 <= i < old(self).order().len() && old(self).order()[i] == name@
                    && final(self).order() == old(self).order().remove(i),
            !unloaded ==> final(self)@ == old(self)@ && final(self).order() == old(self).order(),
    {
        proof {
            use_type_invariant(&*self);
        }
        match find_key(&self.entries, name) {
            None => false,
            Some(i) => {
                proof {
                    lemma_key_index_unique(self.entries@, i as int);
                }
                let count = self.failures[i];
                if !succeeded && count + 1 >= MAX_CONSECUTIVE_FAILURES {
                    self.unload(name);
                    true
                } else {
                    let next: u64 = if succeeded {
                        0
                    } else {
                        count + 1
                    };
                    let mut taken = PluginManager::new();
                    std::mem::swap(&mut taken, self);
                    let PluginManager { entries, plugins, mut failures } = taken;
                    let ghost s = entries@;
                    let ghost fs = failures@;
                    failures.set(i, next);
                    proof {
                        assert forall|k: Seq<char>| has_key(s, k) && k != name@ implies failures@[key_index(s, k)]
                            == fs[key_index(s, k)] by {
                            assert(key_index(s, k) != i);
                        }
                    }
                    *self = PluginManager { entries, plugins, failures };
                    false
                }
            },
        }
    }

    /// A plugin is loaded under `name`.
    pub fn is_loaded(&self, name: &str) -> (r: bool)
        ensures
            r == self@.contains_key(name@),
    {
        match find_key(&self.entries, name) {
            Some(_) => true,
            None => false,
        }
    }

    /// The names of the loaded plugins: each loaded plugin once, in the order.
    pub fn loaded_names(&self) -> (r: Vec<String>)
        ensures
            r@.map_values(|n: String| n@) == self.order(),
            self.order().no_duplicates(),
            forall|k: Seq<char>| self@.contains_key(k) <==> self.order().contains(k),
    {
        proof {
            use_type_invariant(self);
            let s = self.entries@;
            let o = self.order();
            assert forall|i: int, j: int| 0 <= i < o.len() && 0 <= j < o.len() && i != j implies o[i]
                != o[j] by {
                assert(o[i] == s[i].0@ && o[j] == s[j].0@);
            }
            assert forall|k: Seq<char>| self@.contains_key(k) <==> o.contains(k) by {
                if has_key(s, k) {
                    let i = choose|i: int| 0 <= i < s.len() && (#[trigger] s[i]).0@ == k;
                    assert(o[i] == k);
                }
                if o.contains(k) {
                    let i = choose|i: int| 0 <= i < o.len() && o[i] == k;
                    assert(s[i].0@ == k);
                }
            }
        }
        let n = self.entries.len();
        let mut r: Vec<String> = Vec::new();
        let mut i: usize = 0;
        while i < n
            invariant
                n == self.entries@.len(),
                0 <= i <= n,
                r@.len() == i,
                forall|j: int| 0 <= j < i ==> (#[trigger] r@[j])@ == self.entries@[j].0@,
            decreases n - i,
        {
            let name = self.entries[i].0.clone();
            r.push(name);
            i = i + 1;
        }
        assert(r@.map_values(|n: String| n@) =~= self.order());
        r
    }

    /// How many plugins are loaded.
    pub fn len(&self) -> (r: usize)
        ensures
            r == self.order().len(),
    {
        self.entries.len()
    }

    /// The plugin at `index` in the order, to hand it an event.
    pub fn plugin_at_mut(&mut self, index: usize) -> (r: &mut P)
        requires
            index < old(self).order().len(),
        ensures
            *r == old(self)@[old(self).order()[index as int]].0,
            final(self).order() == old(self).order(),
            final(self)@ == old(self)@.insert(
                old(self).order()[index as int],
                (*final(r), old(self)@[old(self).order()[index as int]].1),
            ),
            forall|k: Seq<char>| #[trigger] final(self).failure_state(k) == old(self).failure_state(k),
    {
        proof {
            use_type_invariant(&*self);
            lemma_key_index_unique(self.entries@, index as int);
        }
        let ghost s = self.entries@;
        let ghost ps = self.plugins@;
        let r = &mut self.plugins[index];
        proof {
            let pt = ps.update(index as int, *final(r));
            assert forall|k: Seq<char>| has_key(s, k) && k != s[index as int].0@ implies pt[key_index(s, k)]
                == ps[key_index(s, k)] by {
            }
            assert(plugins_view(s, pt) =~= plugins_view(s, ps).insert(
                s[index as int].0@,
                (*final(r), s[index as int].1@),
            ));
        }
        r
    }
}

impl<P, C: Clone> PluginManager<P, C> {
    /// The commands of all loaded plugins, one plugin after another in the
    /// order.
    pub fn list_commands(&self) -> (r: Vec<C>)
        ensures
            r@.len() == commands_of(self@, self.order()).len(),
            forall|i: int|
                0 <= i < r@.len() ==> cloned::<C>(commands_of(self@, self.order())[i], #[trigger] r@[i]),
    {
        proof {
            use_type_invariant(self);
        }
        let n = self.entries.len();
        let mut r: Vec<C> = Vec::new();
        let mut i: usize = 0;
        while i < n
            invariant
                n == self.entries@.len(),
                n == self.plugins@.len(),
                distinct_keys(self.entries@),
                0 <= i <= n,
                r@.len() == commands_of(self@, self.order().take(i as int)).len(),
                forall|j: int|
                    0 <= j < r@.len() ==> cloned::<C>(
                        commands_of(self@, self.order().take(i as int))[j],
                        #[trigger] r@[j],
                    ),
            decreases n - i,
        {
            let cmds = &self.entries[i].1;
            let ghost before = r@;
            let ghost prefix = commands_of(self@, self.order().take(i as int));
            proof {
                lemma_key_index_unique(self.entries@, i as int);
                assert(self.order().take(i + 1).drop_last() =~= self.order().take(i as int));
                assert(self.order().take(i + 1).last() == self.entries@[i as int].0@);
            }
            let m = cmds.len();
            let mut j: usize = 0;
            while j < m
                invariant
                    m == cmds@.len(),
                    0 <= j <= m,
                    r@.len() == before.len() + j,
                    before.len() == prefix.len(),
                    forall|x: int| 0 <= x < before.len() ==> r@[x] == before[x],
                    forall|x: int| 0 <= x < before.len() ==> cloned::<C>(prefix[x], #[trigger] before[x]),
                    forall|x: int| 0 <= x < j ==> cloned::<C>(cmds@[x], #[trigger] r@[before.len() + x]),
                decreases m - j,
            {
                let c = cmds[j].clone();
                r.push(c);
                j = j + 1;
            }
            proof {
                let next = commands_of(self@, self.order().take(i + 1));
                assert(next == prefix + cmds@);
                assert forall|x: int| 0 <= x < r@.len() implies cloned::<C>(next[x], #[trigger] r@[x]) by {
                    if x < before.len() {
                        assert(r@[x] == before[x]);
                    } else {
                        assert(r@[before.len() + (x - before.len())] == r@[x]);
                    }
                }
            }
            i = i + 1;
        }
        assert(self.order().take(n as int) =~= self.order());
        r
    }
}

} // verus!
