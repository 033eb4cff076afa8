//! Keyboard events and the hotkey registry.
//!
//! [`GlobalHotkeys`] knows which key sequence each hotkey name stands for. It
//! does not watch keys itself: a matcher outside this crate does, holding one
//! trigger per key sequence. Every change to the registry therefore comes with
//! the [`HotkeyCommand`]s that bring the matcher in line, for the caller to
//! carry out in the order given. Names may share a key sequence: the one
//! trigger on it then reports each of them. A trigger that fires sends its
//! names into the registry's channel, and [`read_stream_hotkeys`] hands them
//! to the host.

use vstd::prelude::*;
use crossbeam_channel::{Receiver, Sender};
use crate::channel::{another_sender, feeds, take_buffered, unbounded_channel};
pub use crate::keys::GlobalKeys;

verus! {

/// Event for hotkeys. The event contains the name which was provided during
/// [`GlobalHotkeys::add`].
#[derive(Debug, PartialEq, Eq)]
pub struct GlobalHotkeyEvents(pub String);

/// Event containing all keystrokes happening globally.
///
/// Make sure these aren't recorded, as the user might enter passwords or
/// other secrets.
#[derive(Copy, Clone, Debug, PartialEq, Eq, Structural)]
pub struct GlobalKeyEvents(pub GlobalKeys);

/// One change to make to the matcher's triggers.
#[derive(Debug, PartialEq, Eq)]
pub enum HotkeyCommand {
    /// Wire a trigger on `sequence` that reports every name in `names`, in
    /// place of any trigger that `sequence` had.
    Register { names: Vec<String>, sequence: Vec<GlobalKeys> },
    /// Take the trigger on `sequence` down.
    Unregister { sequence: Vec<GlobalKeys> },
}

/// A [`HotkeyCommand`] as a plain value. The order in which a command lists
/// its names does not matter to the matcher, so here they are a set.
pub enum TriggerChange {
    Register { names: Set<Seq<char>>, sequence: Seq<GlobalKeys> },
    Unregister { sequence: Seq<GlobalKeys> },
}

/// The names in a list, each as plain text.
pub open spec fn names_of(names: Seq<String>) -> Seq<Seq<char>> {
    names.map_values(|name: String| name@)
}

impl View for HotkeyCommand {
    type V = TriggerChange;

    open spec fn view(&self) -> TriggerChange {
        match self {
            HotkeyCommand::Register { names, sequence } => TriggerChange::Register {
                names: names_of(names@).to_set(),
                sequence: sequence@,
            },
            HotkeyCommand::Unregister { sequence } => TriggerChange::Unregister {
                sequence: sequence@,
            },
        }
    }
}

impl HotkeyCommand {
    /// The command lists no name twice, so a trigger wired from it reports
    /// each of its names once per firing.
    pub open spec fn lists_each_name_once(&self) -> bool {
        match self {
            HotkeyCommand::Register { names, sequence } => names_of(names@).no_duplicates(),
            HotkeyCommand::Unregister { sequence } => true,
        }
    }
}

/// The changes that `commands` stand for, in order.
pub open spec fn changes_of(commands: Seq<HotkeyCommand>) -> Seq<TriggerChange> {
    commands.map_values(|c: HotkeyCommand| c@)
}

// ---------------------------------------------------------------------------
// The model: registry and triggers as maps
// ---------------------------------------------------------------------------

/// The live names that stand for `sequence`.
pub open spec fn names_on(registry: Map<Seq<char>, Seq<GlobalKeys>>, sequence: Seq<GlobalKeys>) -> Set<
    Seq<char>,
> {
    Set::new(|name: Seq<char>| registry.contains_key(name) && registry[name] == sequence)
}

/// The changes that removing `name` asks of the matcher. If `name` is live,
/// the trigger on its sequence is wired anew for the names that still stand
/// for that sequence, or comes down when none is left. If `name` is not live,
/// nothing changes.
pub open spec fn remove_changes(registry: Map<Seq<char>, Seq<GlobalKeys>>, name: Seq<char>) -> Seq<
    TriggerChange,
> {
    if registry.contains_key(name) {
        let sequence = registry[name];
        let rest = names_on(registry.remove(name), sequence);
        if rest == Set::<Seq<char>>::empty() {
            seq![TriggerChange::Unregister { sequence }]
        } else {
            seq![TriggerChange::Register { names: rest, sequence }]
        }
    } else {
        Seq::empty()
    }
}

/// The changes that adding `name` with `sequence` asks of the matcher: first
/// those of removing `name`, then the trigger on `sequence` is wired for all
/// the names that now stand for it, `name` among them.
pub open spec fn add_changes(
    registry: Map<Seq<char>, Seq<GlobalKeys>>,
    name: Seq<char>,
    sequence: Seq<GlobalKeys>,
) -> Seq<TriggerChange> {
    remove_changes(registry, name) + seq![
        TriggerChange::Register {
            names: names_on(registry.insert(name, sequence), sequence),
            sequence,
        },
    ]
}

/// The matcher's triggers after one change. The matcher keeps one trigger per
/// key sequence; each trigger reports a set of names when it fires.
pub open spec fn apply_change(
    triggers: Map<Seq<GlobalKeys>, Set<Seq<char>>>,
    change: TriggerChange,
) -> Map<Seq<GlobalKeys>, Set<Seq<char>>> {
    match change {
        TriggerChange::Register { names, sequence } => triggers.insert(sequence, names),
        TriggerChange::Unregister { sequence } => triggers.remove(sequence),
    }
}

/// The matcher's triggers after `changes`, made first to last.
pub open spec fn apply_changes(
    triggers: Map<Seq<GlobalKeys>, Set<Seq<char>>>,
    changes: Seq<TriggerChange>,
) -> Map<Seq<GlobalKeys>, Set<Seq<char>>>
    decreases changes.len(),
{
    if changes.len() == 0 {
        triggers
    } else {
        apply_changes(apply_change(triggers, changes.first()), changes.drop_first())
    }
}

/// Registry and matcher agree. Every live name is reported by the trigger on
/// its own sequence. A trigger reports none but the live names that stand for
/// its sequence, so no name is reported by two triggers. And no trigger is
/// left in place that reports nobody.
pub open spec fn one_trigger_per_name(
    registry: Map<Seq<char>, Seq<GlobalKeys>>,
    triggers: Map<Seq<GlobalKeys>, Set<Seq<char>>>,
) -> bool {
    &&& forall|name: Seq<char>| #[trigger]
        registry.contains_key(name) ==> triggers.contains_key(registry[name])
            && triggers[registry[name]].contains(name)
    &&& forall|sequence: Seq<GlobalKeys>, name: Seq<char>|
        triggers.contains_key(sequence) && #[trigger] triggers[sequence].contains(name)
            ==> registry.contains_key(name) && registry[name] == sequence
    &&& forall|sequence: Seq<GlobalKeys>| #[trigger]
        triggers.contains_key(sequence) ==> triggers[sequence] != Set::<Seq<char>>::empty()
}

/// An empty registry and a matcher without triggers agree.
pub proof fn lemma_empty_registry_agrees()
    ensures
        one_trigger_per_name(
            Map::<Seq<char>, Seq<GlobalKeys>>::empty(),
            Map::<Seq<GlobalKeys>, Set<Seq<char>>>::empty(),
        ),
{
}

/// Where registry and matcher agree, a live name is reported by exactly one
/// trigger: the one on the sequence it stands for, and no other.
pub proof fn lemma_reported_by_exactly_one_trigger(
    registry: Map<Seq<char>, Seq<GlobalKeys>>,
    triggers: Map<Seq<GlobalKeys>, Set<Seq<char>>>,
    name: Seq<char>,
)
    requires
        one_trigger_per_name(registry, triggers),
        registry.contains_key(name),
    ensures
        forall|sequence: Seq<GlobalKeys>|
            (triggers.contains_key(sequence) && #[trigger] triggers[sequence].contains(name)) <==> sequence
                == registry[name],
{
}

/// Removing a hotkey keeps registry and matcher in agreement: once the change
/// that `remove` returns is made, the name is reported by no trigger and
/// every other live name is still reported by the trigger on its sequence,
/// also where it shares that sequence with the name removed. Removing a name
/// that is not registered asks for no change at all.
pub proof fn lemma_remove_keeps_one_trigger_per_name(
    registry: Map<Seq<char>, Seq<GlobalKeys>>,
    triggers: Map<Seq<GlobalKeys>, Set<Seq<char>>>,
    name: Seq<char>,
)
    requires
        one_trigger_per_name(registry, triggers),
    ensures
        one_trigger_per_name(
            registry.remove(name),
            apply_changes(triggers, remove_changes(registry, name)),
        ),
        !registry.contains_key(name) ==> registry.remove(name) == registry && apply_changes(
            triggers,
            remove_changes(registry, name),
        ) == triggers,
{
    reveal_with_fuel(apply_changes, 2);
    let changes = remove_changes(registry, name);
    let after = apply_changes(triggers, changes);
    let shrunk = registry.remove(name);
    if registry.contains_key(name) {
        let sequence = registry[name];
        let rest = names_on(shrunk, sequence);
        assert(changes.drop_first() =~= Seq::<TriggerChange>::empty());
        if rest == Set::<Seq<char>>::empty() {
            assert(after == triggers.remove(sequence));
            assert forall|n: Seq<char>| #[trigger] shrunk.contains_key(n) implies after.contains_key(
                shrunk[n],
            ) && after[shrunk[n]].contains(n) by {
                assert(registry.contains_key(n));
                if registry[n] == sequence {
                    assert(rest.contains(n));
                }
            }
        } else {
            assert(after == triggers.insert(sequence, rest));
            assert forall|n: Seq<char>| #[trigger] shrunk.contains_key(n) implies after.contains_key(
                shrunk[n],
            ) && after[shrunk[n]].contains(n) by {
                assert(registry.contains_key(n));
                if registry[n] == sequence {
                    assert(rest.contains(n));
                }
            }
        }
        assert forall|s: Seq<GlobalKeys>, n: Seq<char>|
            after.contains_key(s) && #[trigger] after[s].contains(n) implies shrunk.contains_key(n)
            && shrunk[n] == s by {
            if s != sequence {
                assert(triggers.contains_key(s));
                assert(triggers[s].contains(n));
            }
        }
        assert forall|s: Seq<GlobalKeys>| #[trigger] after.contains_key(s) implies after[s]
            != Set::<Seq<char>>::empty() by {
            if s != sequence {
                assert(triggers.contains_key(s));
            }
        }
    } else {
        assert(shrunk =~= registry);
        assert(after == triggers);
    }
}

/// Adding a hotkey keeps registry and matcher in agreement: once the changes
/// that `add` returns are made, the new name is reported by the trigger on
/// the new sequence and by no other, and every other live name is still
/// reported by the trigger on its sequence, also where it shares a sequence
/// with the new name or with the one that the name stood for before.
pub proof fn lemma_add_keeps_one_trigger_per_name(
    registry: Map<Seq<char>, Seq<GlobalKeys>>,
    triggers: Map<Seq<GlobalKeys>, Set<Seq<char>>>,
    name: Seq<char>,
    sequence: Seq<GlobalKeys>,
)
    requires
        one_trigger_per_name(registry, triggers),
    ensures
        one_trigger_per_name(
            registry.insert(name, sequence),
            apply_changes(triggers, add_changes(registry, name, sequence)),
        ),
{
    let removal = remove_changes(registry, name);
    let shrunk = registry.remove(name);
    let between = apply_changes(triggers, removal);
    lemma_remove_keeps_one_trigger_per_name(registry, triggers, name);
    let grown = registry.insert(name, sequence);
    let wired = names_on(grown, sequence);
    let register = TriggerChange::Register { names: wired, sequence };
    let after = apply_changes(triggers, add_changes(registry, name, sequence));
    assert(after == between.insert(sequence, wired)) by {
        reveal_with_fuel(apply_changes, 3);
        let changes = removal + seq![register];
        if removal.len() == 0 {
            assert(changes =~= seq![register]);
            assert(changes.drop_first() =~= Seq::<TriggerChange>::empty());
        } else {
            assert(removal.len() == 1);
            assert(changes.first() == removal.first());
            assert(changes.drop_first() =~= seq![register]);
            assert(changes.drop_first().drop_first() =~= Seq::<TriggerChange>::empty());
            assert(removal.drop_first() =~= Seq::<TriggerChange>::empty());
        }
    }
    assert(wired.contains(name));
    assert forall|n: Seq<char>| #[trigger] grown.contains_key(n) implies after.contains_key(
        grown[n],
    ) && after[grown[n]].contains(n) by {
        if n != name {
            assert(shrunk.contains_key(n));
            if grown[n] == sequence {
                assert(wired.contains(n));
            }
        }
    }
    assert forall|s: Seq<GlobalKeys>, n: Seq<char>|
        after.contains_key(s) && #[trigger] after[s].contains(n) implies grown.contains_key(n)
        && grown[n] == s by {
        if s != sequence {
            assert(between.contains_key(s));
            assert(between[s].contains(n));
            assert(shrunk.contains_key(n));
        }
    }
    assert forall|s: Seq<GlobalKeys>| #[trigger] after.contains_key(s) implies after[s]
        != Set::<Seq<char>>::empty() by {
        if s != sequence {
            assert(between.contains_key(s));
        }
    }
}

/// One call on the registry, as a plain value.
pub enum RegistryCall {
    Add { name: Seq<char>, sequence: Seq<GlobalKeys> },
    Remove { name: Seq<char> },
}

/// The registry after `call`.
pub open spec fn registry_after_call(
    registry: Map<Seq<char>, Seq<GlobalKeys>>,
    call: RegistryCall,
) -> Map<Seq<char>, Seq<GlobalKeys>> {
    match call {
        RegistryCall::Add { name, sequence } => registry.insert(name, sequence),
        RegistryCall::Remove { name } => registry.remove(name),
    }
}

/// The changes that `call` asks of the matcher.
pub open spec fn changes_for_call(
    registry: Map<Seq<char>, Seq<GlobalKeys>>,
    call: RegistryCall,
) -> Seq<TriggerChange> {
    match call {
        RegistryCall::Add { name, sequence } => add_changes(registry, name, sequence),
        RegistryCall::Remove { name } => remove_changes(registry, name),
    }
}

/// The registry that `calls`, made first to last on a new registry, lead to.
pub open spec fn registry_after(calls: Seq<RegistryCall>) -> Map<Seq<char>, Seq<GlobalKeys>>
    decreases calls.len(),
{
    if calls.len() == 0 {
        Map::empty()
    } else {
        registry_after_call(registry_after(calls.drop_last()), calls.last())
    }
}

/// The triggers that the matcher holds once it has made every change that
/// `calls` asked for, starting with none.
pub open spec fn triggers_after(calls: Seq<RegistryCall>) -> Map<Seq<GlobalKeys>, Set<Seq<char>>>
    decreases calls.len(),
{
    if calls.len() == 0 {
        Map::empty()
    } else {
        apply_changes(
            triggers_after(calls.drop_last()),
            changes_for_call(registry_after(calls.drop_last()), calls.last()),
        )
    }
}

/// At most one binding per name, at any time: after any run of `add` and
/// `remove` calls the registry holds one sequence for each live name, every
/// live name is reported by exactly one trigger, the one on its sequence, and
/// the matcher holds no trigger besides. Names may share a key sequence.
pub proof fn lemma_one_trigger_per_name_always(calls: Seq<RegistryCall>)
    ensures
        one_trigger_per_name(registry_after(calls), triggers_after(calls)),
    decreases calls.len(),
{
    if calls.len() > 0 {
        let earlier = calls.drop_last();
        lemma_one_trigger_per_name_always(earlier);
        match calls.last() {
            RegistryCall::Add { name, sequence } => {
                lemma_add_keeps_one_trigger_per_name(
                    registry_after(earlier),
                    triggers_after(earlier),
                    name,
                    sequence,
                );
            },
            RegistryCall::Remove { name } => {
                lemma_remove_keeps_one_trigger_per_name(
                    registry_after(earlier),
                    triggers_after(earlier),
                    name,
                );
            },
        }
    }
}

// ---------------------------------------------------------------------------
// The registry
// ---------------------------------------------------------------------------

struct HotkeyDefinition {
    name: String,
    sequence: Vec<GlobalKeys>,
}

/// Stores the global hotkeys: for each name the key sequence it stands for.
pub struct GlobalHotkeys {
    rx: Receiver<String>,
    tx: Sender<String>,
    // A plain list in order of registration, searched by name. An ordered map
    // keyed by name would rest on how strings compare, of which the verifier
    // knows nothing: it proves nothing about such a map.
    map: Vec<HotkeyDefinition>,
}

impl View for GlobalHotkeys {
    type V = Map<Seq<char>, Seq<GlobalKeys>>;

    /// The registry as a map from name to key sequence.
    closed spec fn view(&self) -> Map<Seq<char>, Seq<GlobalKeys>> {
        Map::new(
            |name: Seq<char>| self.names().contains(name),
            |name: Seq<char>| self.map@[self.names().index_of(name)].sequence@,
        )
    }
}

fn copy_keys(sequence: &[GlobalKeys]) -> (copy: Vec<GlobalKeys>)
    ensures
        copy@ == sequence@,
{
    let mut copy: Vec<GlobalKeys> = Vec::new();
    let mut i: usize = 0;
    while i < sequence.len()
        invariant
            i <= sequence.len(),
            copy@ == sequence@.take(i as int),
        decreases sequence.len() - i,
    {
        copy.push(sequence[i]);
        assert(sequence@.take(i + 1) =~= sequence@.take(i as int).push(sequence@[i as int]));
        i += 1;
    }
    assert(sequence@.take(sequence@.len() as int) =~= sequence@);
    copy
}

fn same_keys(left: &Vec<GlobalKeys>, right: &Vec<GlobalKeys>) -> (same: bool)
    ensures
        same == (left@ == right@),
{
    if left.len() != right.len() {
        return false;
    }
    let mut i: usize = 0;
    while i < left.len()
        invariant
            i <= left.len(),
            left.len() == right.len(),
            forall|k: int| 0 <= k < i ==> left@[k] == right@[k],
        decreases left.len() - i,
    {
        if left[i] != right[i] {
            return false;
        }
        i += 1;
    }
    assert(left@ =~= right@);
    true
}

impl GlobalHotkeys {
    spec fn names(&self) -> Seq<Seq<char>> {
        self.map@.map_values(|d: HotkeyDefinition| d.name@)
    }

    /// No name is stored twice, and the registry's own sender feeds its own
    /// receiver.
    pub closed spec fn well_formed(&self) -> bool {
        &&& self.names().no_duplicates()
        &&& feeds(self.tx, self.rx)
    }

    /// Whether `handle` is a producing end of this registry's stream of fired
    /// hotkeys, the one that [`read_stream_hotkeys`] drains.
    pub closed spec fn fed_by(&self, handle: Sender<String>) -> bool {
        feeds(handle, self.rx)
    }

    proof fn lemma_entry(&self, i: int)
        requires
            self.well_formed(),
            0 <= i < self.map@.len(),
        ensures
            self@.contains_key(self.map@[i].name@),
            self@[self.map@[i].name@] == self.map@[i].sequence@,
    {
        let names = self.names();
        assert(names[i] == self.map@[i].name@);
        assert(names.contains(names[i]));
        let k = names.index_of(names[i]);
        assert(0 <= k < names.len() && names[k] == names[i]);
    }

    proof fn lemma_absent(&self, name: Seq<char>)
        requires
            forall|i: int| 0 <= i < self.map@.len() ==> (#[trigger] self.map@[i]).name@ != name,
        ensures
            !self@.contains_key(name),
    {
        let names = self.names();
        if names.contains(name) {
            let k = choose|k: int| 0 <= k < names.len() && names[k] == name;
            assert(self.map@[k].name@ == name);
        }
    }

    proof fn lemma_present(&self, name: Seq<char>)
        requires
            self@.contains_key(name),
        ensures
            exists|i: int| 0 <= i < self.map@.len() && (#[trigger] self.map@[i]).name@ == name,
    {
        let names = self.names();
        let k = choose|k: int| 0 <= k < names.len() && names[k] == name;
        assert(self.map@[k].name@ == name);
    }

    /// An empty registry with a channel of its own for fired hotkeys.
    pub fn new() -> (hotkeys: GlobalHotkeys)
        ensures
            hotkeys.well_formed(),
            hotkeys@ == Map::<Seq<char>, Seq<GlobalKeys>>::empty(),
    {
        let (tx, rx) = unbounded_channel();
        let hotkeys = GlobalHotkeys { rx, tx, map: Vec::new() };
        proof {
            hotkeys.lemma_absent_all();
        }
        hotkeys
    }

    proof fn lemma_absent_all(&self)
        requires
            self.map@.len() == 0,
        ensures
            self.names().no_duplicates(),
            self@ =~= Map::<Seq<char>, Seq<GlobalKeys>>::empty(),
    {
        assert forall|name: Seq<char>| !self@.contains_key(name) by {
            self.lemma_absent(name);
        }
    }

    fn position(&self, key: &str) -> (found: Option<usize>)
        ensures
            match found {
                Some(i) => i < self.map@.len() && self.map@[i as int].name@ == key@,
                None => forall|i: int|
                    0 <= i < self.map@.len() ==> (#[trigger] self.map@[i]).name@ != key@,
            },
    {
        let wanted: String = key.to_owned();
        let mut i: usize = 0;
        while i < self.map.len()
            invariant
                i <= self.map@.len(),
                wanted@ == key@,
                forall|k: int| 0 <= k < i ==> (#[trigger] self.map@[k]).name@ != key@,
            decreases self.map.len() - i,
        {
            if self.map[i].name == wanted {
                return Some(i);
            }
            i += 1;
        }
        None
    }

    /// The live names that stand for `sequence`, oldest registration first.
    fn names_for(&self, sequence: &Vec<GlobalKeys>) -> (names: Vec<String>)
        requires
            self.well_formed(),
        ensures
            names_of(names@).no_duplicates(),
            names_of(names@).to_set() == names_on(self@, sequence@),
    {
        let mut names: Vec<String> = Vec::new();
        let ghost mut from: Seq<int> = Seq::empty();
        let mut i: usize = 0;
        while i < self.map.len()
            invariant
                i <= self.map@.len(),
                from.len() == names@.len(),
                forall|k: int|
                    0 <= k < from.len() ==> {
                        &&& 0 <= #[trigger] from[k] < i
                        &&& names@[k]@ == self.map@[from[k]].name@
                        &&& self.map@[from[k]].sequence@ == sequence@
                    },
                forall|k1: int, k2: int|
                    0 <= k1 < k2 < from.len() ==> #[trigger] from[k1] < #[trigger] from[k2],
                forall|j: int|
                    0 <= j < i && (#[trigger] self.map@[j]).sequence@ == sequence@
                        ==> from.contains(j),
            decreases self.map.len() - i,
        {
            if same_keys(&self.map[i].sequence, sequence) {
                let ghost earlier = from;
                names.push(self.map[i].name.clone());
                proof {
                    from = from.push(i as int);
                    assert forall|j: int|
                        0 <= j < i + 1 && (#[trigger] self.map@[j]).sequence@
                            == sequence@ implies from.contains(j) by {
                        if j < i {
                            let k = earlier.index_of(j);
                            assert(from[k] == j);
                        } else {
                            assert(from[earlier.len() as int] == j);
                        }
                    }
                }
            }
            i += 1;
        }
        proof {
            let listed = names_of(names@);
            assert forall|k1: int, k2: int|
                0 <= k1 < listed.len() && 0 <= k2 < listed.len() && k1 != k2 implies listed[k1]
                != listed[k2] by {
                assert(from[k1] != from[k2]);
                assert(self.names()[from[k1]] == listed[k1]);
                assert(self.names()[from[k2]] == listed[k2]);
            }
            assert forall|n: Seq<char>| #[trigger]
                listed.to_set().contains(n) implies names_on(self@, sequence@).contains(n) by {
                let k = listed.index_of(n);
                assert(listed[k] == n);
                self.lemma_entry(from[k]);
            }
            assert forall|n: Seq<char>| #[trigger]
                names_on(self@, sequence@).contains(n) implies listed.to_set().contains(n) by {
                self.lemma_present(n);
                let j = choose|j: int|
                    0 <= j < self.map@.len() && (#[trigger] self.map@[j]).name@ == n;
                self.lemma_entry(j);
                let k = from.index_of(j);
                assert(from[k] == j);
                assert(listed[k] == n);
            }
            assert(listed.to_set() =~= names_on(self@, sequence@));
        }
        names
    }

    /// Add a global hotkey. `key` is what the event will contain when the
    /// hotkey was triggered.
    ///
    /// A name that is already registered is overwritten: its old sequence is
    /// removed first. Several names may stand for one key sequence: its
    /// trigger then reports each of them. The commands returned are to be
    /// carried out in order.
    pub fn add(&mut self, key: String, sequence: &[GlobalKeys]) -> (commands: Vec<HotkeyCommand>)
        requires
            old(self).well_formed(),
        ensures
            final(self).well_formed(),
            final(self)@ == old(self)@.insert(key@, sequence@),
            changes_of(commands@) == add_changes(old(self)@, key@, sequence@),
            forall|i: int|
                0 <= i < commands@.len() ==> (#[trigger] commands@[i]).lists_each_name_once(),
            forall|handle: Sender<String>| #[trigger]
                final(self).fed_by(handle) == old(self).fed_by(handle),
    {
        let mut commands: Vec<HotkeyCommand> = Vec::new();
        match self.remove(key.as_str()) {
            Some(rewire) => {
                commands.push(rewire);
            },
            None => {},
        }
        let ghost removal = commands@;
        let ghost removed = *self;
        let ghost target = old(self)@.insert(key@, sequence@);
        self.map.push(HotkeyDefinition { name: key, sequence: copy_keys(sequence) });
        proof {
            let last = removed.map@.len() as int;
            assert(self.map@.drop_last() == removed.map@);
            assert forall|i: int, j: int|
                0 <= i < self.names().len() && 0 <= j < self.names().len() && i != j implies self.names()[i]
                != self.names()[j] by {
                if i < last && j < last {
                    assert(removed.names()[i] == self.names()[i]);
                    assert(removed.names()[j] == self.names()[j]);
                } else {
                    let other = if i < last {
                        i
                    } else {
                        j
                    };
                    removed.lemma_entry(other);
                    assert(removed.map@[other] == self.map@[other]);
                }
            }
            assert(removed@.insert(key@, sequence@) =~= target);
            assert forall|n: Seq<char>| #[trigger] self@.dom().contains(n) implies target.dom().contains(
                n,
            ) && self@[n] == target[n] by {
                self.lemma_present(n);
                let i = choose|i: int|
                    0 <= i < self.map@.len() && (#[trigger] self.map@[i]).name@ == n;
                self.lemma_entry(i);
                if i < last {
                    assert(removed.map@[i] == self.map@[i]);
                    removed.lemma_entry(i);
                }
            }
            assert forall|n: Seq<char>| #[trigger] target.dom().contains(n) implies self@.dom().contains(
                n,
            ) by {
                if n == key@ {
                    self.lemma_entry(last);
                } else {
                    assert(removed@.contains_key(n));
                    removed.lemma_present(n);
                    let i = choose|i: int|
                        0 <= i < removed.map@.len() && (#[trigger] removed.map@[i]).name@ == n;
                    assert(removed.map@[i] == self.map@[i]);
                    self.lemma_entry(i);
                }
            }
            assert(self@ =~= target);
            assert forall|handle: Sender<String>| #[trigger]
                self.fed_by(handle) == old(self).fed_by(handle) by {
                assert(removed.fed_by(handle) == old(self).fed_by(handle));
            }
        }
        let wanted = copy_keys(sequence);
        let names = self.names_for(&wanted);
        let register = HotkeyCommand::Register { names, sequence: wanted };
        commands.push(register);
        proof {
            assert(commands@ =~= removal + seq![register]);
            assert(changes_of(removal + seq![register]) =~= changes_of(removal) + seq![register@]);
            if removal.len() == 1 {
                assert(removal =~= seq![removal[0]]);
            } else {
                assert(removal =~= Seq::<HotkeyCommand>::empty());
            }
        }
        commands
    }

    /// Remove a global hotkey. `key` is the name given to
    /// [`GlobalHotkeys::add`].
    ///
    /// Removing a name that is not registered changes nothing and returns
    /// `None`; the caller may want to warn about it. Otherwise the command
    /// returned takes the trigger on the name's sequence down, or, where other
    /// names still stand for that sequence, wires it anew for them.
    pub fn remove(&mut self, key: &str) -> (command: Option<HotkeyCommand>)
        requires
            old(self).well_formed(),
        ensures
            final(self).well_formed(),
            final(self)@ == old(self)@.remove(key@),
            !old(self)@.contains_key(key@) ==> final(self)@ == old(self)@,
            command is Some <==> old(self)@.contains_key(key@),
            changes_of(
                match command {
                    Some(rewire) => seq![rewire],
                    None => Seq::empty(),
                },
            ) == remove_changes(old(self)@, key@),
            match command {
                Some(rewire) => rewire.lists_each_name_once(),
                None => true,
            },
            forall|handle: Sender<String>| #[trigger]
                final(self).fed_by(handle) == old(self).fed_by(handle),
    {
        match self.position(key) {
            Some(i) => {
                let entry = self.map.remove(i);
                proof {
                    let before = *old(self);
                    let target = before@.remove(key@);
                    before.lemma_entry(i as int);
                    assert forall|a: int, b: int|
                        0 <= a < self.names().len() && 0 <= b < self.names().len() && a
                            != b implies self.names()[a] != self.names()[b] by {
                        let a0 = if a < i {
                            a
                        } else {
                            a + 1
                        };
                        let b0 = if b < i {
                            b
                        } else {
                            b + 1
                        };
                        assert(self.names()[a] == before.names()[a0]);
                        assert(self.names()[b] == before.names()[b0]);
                    }
                    assert forall|n: Seq<char>| #[trigger]
                        self@.dom().contains(n) implies target.dom().contains(n) && self@[n]
                        == target[n] by {
                        self.lemma_present(n);
                        let a = choose|a: int|
                            0 <= a < self.map@.len() && (#[trigger] self.map@[a]).name@ == n;
                        let a0 = if a < i {
                            a
                        } else {
                            a + 1
                        };
                        assert(self.map@[a] == before.map@[a0]);
                        self.lemma_entry(a);
                        before.lemma_entry(a0);
                        assert(before.names()[a0] == n);
                        assert(before.names()[i as int] == key@);
                    }
                    assert forall|n: Seq<char>| #[trigger]
                        target.dom().contains(n) implies self@.dom().contains(n) by {
                        assert(before@.contains_key(n));
                        before.lemma_present(n);
                        let a0 = choose|a0: int|
                            0 <= a0 < before.map@.len() && (#[trigger] before.map@[a0]).name@ == n;
                        let a = if a0 < i {
                            a0
                        } else {
                            a0 - 1
                        };
                        assert(self.map@[a] == before.map@[a0]);
                        self.lemma_entry(a);
                    }
                    assert(self@ =~= target);
                }
                let rest = self.names_for(&entry.sequence);
                let rewire = if rest.len() == 0 {
                    proof {
                        assert(names_of(rest@).to_set() =~= Set::<Seq<char>>::empty());
                    }
                    HotkeyCommand::Unregister { sequence: entry.sequence }
                } else {
                    proof {
                        assert(names_of(rest@).to_set().contains(names_of(rest@)[0]));
                    }
                    HotkeyCommand::Register { names: rest, sequence: entry.sequence }
                };
                proof {
                    assert(changes_of(seq![rewire]) =~= remove_changes(old(self)@, key@));
                }
                Some(rewire)
            },
            None => {
                proof {
                    self.lemma_absent(key@);
                    assert(self@.remove(key@) =~= self@);
                    assert(changes_of(Seq::<HotkeyCommand>::empty()) =~= remove_changes(
                        self@,
                        key@,
                    ));
                }
                None
            },
        }
    }

    /// The key sequence that `key` stands for, if it is registered.
    pub fn get(&self, key: &str) -> (sequence: Option<&Vec<GlobalKeys>>)
        requires
            self.well_formed(),
        ensures
            match sequence {
                Some(keys) => self@.contains_key(key@) && keys@ == self@[key@],
                None => !self@.contains_key(key@),
            },
    {
        match self.position(key) {
            Some(i) => {
                proof {
                    self.lemma_entry(i as int);
                }
                Some(&self.map[i].sequence)
            },
            None => {
                proof {
                    self.lemma_absent(key@);
                }
                None
            },
        }
    }

    /// How many hotkeys are registered. It is the number of distinct names:
    /// no name has more than one sequence.
    pub fn len(&self) -> (count: usize)
        requires
            self.well_formed(),
        ensures
            self@.dom().finite(),
            count == self@.dom().len(),
    {
        proof {
            let names = self.names();
            names.unique_seq_to_set();
            assert(self@.dom() =~= names.to_set());
        }
        self.map.len()
    }

    /// One more producer handle on the channel of fired hotkeys, for a
    /// trigger to send its name through.
    pub fn sender(&self) -> (handle: Sender<String>)
        requires
            self.well_formed(),
        ensures
            self.fed_by(handle),
    {
        another_sender(&self.tx)
    }
}

// ---------------------------------------------------------------------------
// Draining the streams
// ---------------------------------------------------------------------------

/// Wraps each key for the host, keeping count and order.
pub fn key_events_from(keys: Vec<GlobalKeys>) -> (events: Vec<GlobalKeyEvents>)
    ensures
        events@.len() == keys@.len(),
        forall|i: int| 0 <= i < keys@.len() ==> (#[trigger] events@[i]).0 == keys@[i],
{
    let mut events: Vec<GlobalKeyEvents> = Vec::new();
    let mut i: usize = 0;
    while i < keys.len()
        invariant
            i <= keys.len(),
            events@.len() == i,
            forall|k: int| 0 <= k < i ==> (#[trigger] events@[k]).0 == keys@[k],
        decreases keys.len() - i,
    {
        events.push(GlobalKeyEvents(keys[i]));
        i += 1;
    }
    events
}

/// Wraps each fired hotkey's name for the host, keeping count and order.
pub fn hotkey_events_from(names: Vec<String>) -> (events: Vec<GlobalHotkeyEvents>)
    ensures
        events@.len() == names@.len(),
        forall|i: int| 0 <= i < names@.len() ==> (#[trigger] events@[i]).0@ == names@[i]@,
{
    let mut events: Vec<GlobalHotkeyEvents> = Vec::new();
    let mut i: usize = 0;
    while i < names.len()
        invariant
            i <= names.len(),
            events@.len() == i,
            forall|k: int| 0 <= k < i ==> (#[trigger] events@[k]).0@ == names@[k]@,
        decreases names.len() - i,
    {
        events.push(GlobalHotkeyEvents(names[i].clone()));
        i += 1;
    }
    events
}

/// Takes the keystrokes that the keyboard hook has queued so far, without
/// waiting, and hands them to the host in arrival order.
///
/// Which keys are queued is the hook's doing, so the contract is silent on
/// them; [`key_events_from`] says what becomes of each.
pub fn read_stream_events(receiver: &Receiver<GlobalKeys>) -> (events: Vec<GlobalKeyEvents>) {
    key_events_from(take_buffered(receiver))
}

/// Takes the hotkeys that have fired so far, without waiting, and hands their
/// names to the host in arrival order.
///
/// Which hotkeys fired is the matcher's doing, so the contract is silent on
/// them; [`hotkey_events_from`] says what becomes of each.
pub fn read_stream_hotkeys(hotkeys: &GlobalHotkeys) -> (events: Vec<GlobalHotkeyEvents>) {
    hotkey_events_from(take_buffered(&hotkeys.rx))
}

} // verus!
