//! The watcher manager: which containers are being tailed, and what to do
//! when the runtime announces a lifecycle action.
//!
//! The manager decides and the caller acts. Every operation returns the
//! [`Command`]s to carry out, in order: hand an event to the forwarder,
//! start a tailer, signal a tailer to stop, or let go of a tailer whose
//! handle was replaced.

use crate::event::{Event, EventView};
use crate::registry::{
    as_map, keys_distinct, lemma_absent, lemma_entry, lemma_key, lemma_push, lemma_remove,
    lemma_replace,
};
use crate::timestamp::{Timestamp, TimestampView};
use vstd::prelude::*;
use vstd::string::*;

verus! {

/// The number under which the manager hands its own events to the
/// forwarder. Tailers hand theirs in under their own numbers, and no
/// tailer ever has this one.
pub const MANAGER: u64 = u64::MAX;

/// What the caller is to do after the manager has decided.
#[derive(Debug, PartialEq, Eq)]
pub enum Command {
    /// Hand the event to the forwarder.
    Forward(Event),
    /// Start a tailer for the container `name`; `tailer` identifies its
    /// cancellation channel from now on.
    Start { name: String, tailer: u64 },
    /// Send the cancellation signal to the tailer, then drop its channel.
    Cancel { tailer: u64 },
    /// Drop the tailer's cancellation channel without a signal: its handle
    /// was replaced, and the tailer ends when it finds the channel abandoned.
    Retire { tailer: u64 },
}

/// The mathematical value of a [`Command`].
pub enum CommandView {
    Forward(EventView),
    Start { name: Seq<char>, tailer: u64 },
    Cancel { tailer: u64 },
    Retire { tailer: u64 },
}

impl View for Command {
    type V = CommandView;

    open spec fn view(&self) -> CommandView {
        match *self {
            Command::Forward(event) => CommandView::Forward(event@),
            Command::Start { name, tailer } => CommandView::Start { name: name@, tailer },
            Command::Cancel { tailer } => CommandView::Cancel { tailer },
            Command::Retire { tailer } => CommandView::Retire { tailer },
        }
    }
}

/// The values of a list of commands, in order.
pub open spec fn command_views(commands: Seq<Command>) -> Seq<CommandView> {
    commands.map_values(|c: Command| c@)
}

/// The values of a list of texts, in order.
pub open spec fn text_views(texts: Seq<String>) -> Seq<Seq<char>> {
    texts.map_values(|t: String| t@)
}

/// The names that the runtime lists for one container, joined by commas.
pub open spec fn joined(names: Seq<Seq<char>>) -> Seq<char>
    decreases names.len(),
{
    if names.len() == 0 {
        Seq::empty()
    } else if names.len() == 1 {
        names[0]
    } else {
        joined(names.drop_last()) + ","@ + names.last()
    }
}

/// The name under which a container is watched, from the names that the
/// runtime lists for it: the names joined by commas, without the first
/// character, which is the slash that the runtime puts in front. There is
/// none where the list gives no character at all, or gives a first
/// character that is more than one byte of text.
pub open spec fn listed_name(names: Seq<Seq<char>>) -> Option<Seq<char>> {
    let all = joined(names);
    if all.len() > 0 && (all[0] as u32) < 0x80 {
        Some(all.drop_first())
    } else {
        None
    }
}

/// The name under which a container is watched, from the names that the
/// runtime lists for it.
pub fn name_of_listed(names: &Vec<String>) -> (name: Option<String>)
    ensures
        match name {
            Some(name) => listed_name(text_views(names@)) == Some(name@),
            None => listed_name(text_views(names@)) is None,
        },
{
    let ghost texts = text_views(names@);
    let mut all = String::new();
    let mut i: usize = 0;
    while i < names.len()
        invariant
            i <= names.len(),
            texts == text_views(names@),
            all@ == joined(texts.take(i as int)),
        decreases names.len() - i,
    {
        proof {
            assert(texts.take(i + 1).drop_last() =~= texts.take(i as int));
            assert(texts.take(i + 1).last() == names[i as int]@);
        }
        if i > 0 {
            all.append(",");
        }
        all.append(names[i].as_str());
        i += 1;
    }
    proof {
        assert(texts.take(i as int) =~= texts);
    }
    let text = all.as_str();
    let count = text.unicode_len();
    if count == 0 {
        return None;
    }
    let first = text.get_char(0);
    if first as u32 >= 0x80 {
        return None;
    }
    Some(String::from_str(text.substring_char(1, count)))
}

/// Whether a lifecycle action announces that a container started.
pub open spec fn is_start(action: Seq<char>) -> bool {
    action == "start"@
}

/// Whether a lifecycle action announces that a container is gone.
pub open spec fn is_stop(action: Seq<char>) -> bool {
    action == "kill"@ || action == "die"@ || action == "stop"@
}

/// The manager as a mathematical value: the tailer of each watched
/// container, and how many tailers were started so far.
pub struct WatcherView {
    pub handles: Map<Seq<char>, u64>,
    pub issued: nat,
}

impl WatcherView {
    /// Every active tailer was issued before: the next one is new.
    pub open spec fn wf(self) -> bool {
        &&& self.issued <= u64::MAX
        &&& forall|name: Seq<char>| #[trigger]
            self.handles.contains_key(name) ==> self.handles[name] < self.issued
    }

    /// The manager after it started a tailer for `name`.
    pub open spec fn start(self, name: Seq<char>) -> WatcherView {
        WatcherView {
            handles: self.handles.insert(name, self.issued as u64),
            issued: self.issued + 1,
        }
    }

    /// What starting a tailer for `name` asks of the caller: to let go of
    /// the tailer that `name` had, if any, and to start the new one.
    pub open spec fn start_commands(self, name: Seq<char>) -> Seq<CommandView> {
        let start = CommandView::Start { name, tailer: self.issued as u64 };
        if self.handles.contains_key(name) {
            seq![CommandView::Retire { tailer: self.handles[name] }, start]
        } else {
            seq![start]
        }
    }

    /// The manager after it stopped watching `name`.
    pub open spec fn stop(self, name: Seq<char>) -> WatcherView {
        WatcherView { handles: self.handles.remove(name), issued: self.issued }
    }

    /// What stopping `name` asks of the caller: to cancel its tailer, if it
    /// has one.
    pub open spec fn stop_commands(self, name: Seq<char>) -> Seq<CommandView> {
        if self.handles.contains_key(name) {
            seq![CommandView::Cancel { tailer: self.handles[name] }]
        } else {
            seq![]
        }
    }

    /// The manager after it learnt that the tailer `tailer` of `name` could
    /// not be started or has ended by itself: `name` is left unwatched,
    /// unless a later start has given it another tailer.
    pub open spec fn released(self, name: Seq<char>, tailer: u64) -> WatcherView {
        if self.handles.contains_key(name) && self.handles[name] == tailer {
            WatcherView { handles: self.handles.remove(name), issued: self.issued }
        } else {
            self
        }
    }

    /// The manager after the lifecycle action `action` of `name`.
    pub open spec fn after_action(self, name: Seq<char>, action: Seq<char>) -> WatcherView {
        if is_start(action) {
            self.start(name)
        } else if is_stop(action) {
            self.stop(name)
        } else {
            self
        }
    }

    /// What the lifecycle action `action` of `name`, seen at `now`, asks of
    /// the caller: first to forward the action as an event, whatever it is,
    /// then what starting or stopping asks.
    pub open spec fn action_commands(
        self,
        name: Seq<char>,
        action: Seq<char>,
        now: TimestampView,
    ) -> Seq<CommandView> {
        let forward = seq![
            CommandView::Forward(
                EventView::DockerAction { container_name: name, action, timestamp: now },
            ),
        ];
        if is_start(action) {
            forward + self.start_commands(name)
        } else if is_stop(action) {
            forward + self.stop_commands(name)
        } else {
            forward
        }
    }

    /// The manager after it started a tailer for each of `names`, in order.
    pub open spec fn seed(self, names: Seq<Seq<char>>) -> WatcherView
        decreases names.len(),
    {
        if names.len() == 0 {
            self
        } else {
            self.seed(names.drop_last()).start(names.last())
        }
    }

    /// What seeding with `names` asks of the caller.
    pub open spec fn seed_commands(self, names: Seq<Seq<char>>) -> Seq<CommandView>
        decreases names.len(),
    {
        if names.len() == 0 {
            seq![]
        } else {
            self.seed_commands(names.drop_last()) + self.seed(names.drop_last()).start_commands(
                names.last(),
            )
        }
    }
}

/// The manager's record of one watched container.
struct WatcherHandle {
    name: String,
    tailer: u64,
}

/// The handles as entries: the name of each container with its tailer.
spec fn entries(handles: Seq<WatcherHandle>) -> Seq<(Seq<char>, u64)> {
    Seq::new(handles.len(), |i: int| (handles[i].name@, handles[i].tailer))
}

/// The set of watched containers with the tailer of each. The manager is
/// its only writer.
pub struct WatcherManager {
    handles: Vec<WatcherHandle>,
    issued: u64,
}

impl View for WatcherManager {
    type V = WatcherView;

    closed spec fn view(&self) -> WatcherView {
        WatcherView { handles: as_map(entries(self.handles@)), issued: self.issued as nat }
    }
}

impl WatcherManager {
    /// The manager keeps one handle for each watched container, and every
    /// tailer on record is one that it started.
    pub closed spec fn wf(&self) -> bool {
        &&& keys_distinct(entries(self.handles@))
        &&& forall|i: int|
            0 <= i < self.handles.len() ==> (#[trigger] self.handles[i]).tailer < self.issued
    }

    /// The value of a well-formed manager is well formed.
    pub proof fn lemma_view_wf(self)
        requires
            self.wf(),
        ensures
            self@.wf(),
    {
        assert forall|name: Seq<char>| #[trigger]
            self@.handles.contains_key(name) implies self@.handles[name] < self@.issued by {
            lemma_key(entries(self.handles@), name);
        }
    }

    /// A manager that watches nothing.
    pub fn new() -> (manager: WatcherManager)
        ensures
            manager.wf(),
            manager@.handles == Map::<Seq<char>, u64>::empty(),
            manager@.issued == 0,
    {
        WatcherManager { handles: Vec::new(), issued: 0 }
    }

    /// The position of the handle of `name`, if it has one.
    fn find(&self, name: &String) -> (found: Option<usize>)
        requires
            self.wf(),
        ensures
            match found {
                Some(i) => {
                    &&& i < self.handles.len()
                    &&& self.handles[i as int].name@ == name@
                    &&& self@.handles.contains_key(name@)
                    &&& self@.handles[name@] == self.handles[i as int].tailer
                },
                None => !self@.handles.contains_key(name@),
            },
    {
        let mut i: usize = 0;
        while i < self.handles.len()
            invariant
                self.wf(),
                i <= self.handles.len(),
                forall|j: int| 0 <= j < i ==> (#[trigger] entries(self.handles@)[j]).0 != name@,
            decreases self.handles.len() - i,
        {
            if self.handles[i].name == *name {
                proof {
                    lemma_entry(entries(self.handles@), i as int);
                }
                return Some(i);
            }
            i += 1;
        }
        proof {
            lemma_absent(entries(self.handles@), name@);
        }
        None
    }

    /// The tailer that watches `name`, if one does.
    pub fn tailer_of(&self, name: &String) -> (tailer: Option<u64>)
        requires
            self.wf(),
        ensures
            tailer == if self@.handles.contains_key(name@) {
                Some(self@.handles[name@])
            } else {
                None
            },
    {
        match self.find(name) {
            Some(i) => Some(self.handles[i].tailer),
            None => None,
        }
    }

    /// How many tailers the manager has started so far.
    pub fn issued(&self) -> (issued: u64)
        ensures
            issued == self@.issued,
    {
        self.issued
    }

    /// Starts a tailer for `name` and registers its handle in place of the
    /// one that `name` had. Appends to `commands` what the caller is to do.
    fn install(&mut self, name: String, commands: &mut Vec<Command>)
        requires
            old(self).wf(),
            old(self)@.issued < u64::MAX,
        ensures
            final(self).wf(),
            final(self)@ == old(self)@.start(name@),
            command_views(final(commands)@) == command_views(old(commands)@) + old(
                self,
            )@.start_commands(name@),
    {
        let tailer = self.issued;
        let found = self.find(&name);
        let ghost before = entries(self.handles@);
        self.issued = tailer + 1;
        match found {
            Some(i) => {
                commands.push(Command::Retire { tailer: self.handles[i].tailer });
                commands.push(Command::Start { name: name.clone(), tailer });
                self.handles.set(i, WatcherHandle { name, tailer });
                proof {
                    lemma_replace(before, i as int, tailer);
                    assert(entries(self.handles@) =~= before.update(i as int, (name@, tailer)));
                }
            },
            None => {
                commands.push(Command::Start { name: name.clone(), tailer });
                self.handles.push(WatcherHandle { name, tailer });
                proof {
                    lemma_push(before, name@, tailer);
                    assert(entries(self.handles@) =~= before.push((name@, tailer)));
                }
            },
        }
        assert(command_views(commands@) =~= command_views(old(commands)@) + old(
            self,
        )@.start_commands(name@));
    }

    /// Takes the handle of `name` out, if it has one, and appends to
    /// `commands` the cancellation of its tailer.
    fn uninstall(&mut self, name: &String, commands: &mut Vec<Command>)
        requires
            old(self).wf(),
        ensures
            final(self).wf(),
            final(self)@ == old(self)@.stop(name@),
            command_views(final(commands)@) == command_views(old(commands)@) + old(
                self,
            )@.stop_commands(name@),
    {
        let ghost before = entries(self.handles@);
        match self.find(name) {
            Some(i) => {
                let handle = self.handles.remove(i);
                commands.push(Command::Cancel { tailer: handle.tailer });
                proof {
                    lemma_remove(before, i as int);
                    assert(entries(self.handles@) =~= before.remove(i as int));
                }
            },
            None => {
                assert(self@.handles.remove(name@) =~= self@.handles);
            },
        }
        assert(command_views(commands@) =~= command_views(old(commands)@) + old(
            self,
        )@.stop_commands(name@));
    }

    /// Starts a tailer for `name`, in place of the one that it had.
    pub fn start(&mut self, name: String) -> (commands: Vec<Command>)
        requires
            old(self).wf(),
            old(self)@.issued < u64::MAX,
        ensures
            final(self).wf(),
            final(self)@ == old(self)@.start(name@),
            command_views(commands@) == old(self)@.start_commands(name@),
    {
        let mut commands: Vec<Command> = Vec::new();
        self.install(name, &mut commands);
        commands
    }

    /// Stops watching `name`: a container without a handle is left as it is.
    pub fn stop(&mut self, name: &String) -> (commands: Vec<Command>)
        requires
            old(self).wf(),
        ensures
            final(self).wf(),
            final(self)@ == old(self)@.stop(name@),
            command_views(commands@) == old(self)@.stop_commands(name@),
    {
        let mut commands: Vec<Command> = Vec::new();
        self.uninstall(name, &mut commands);
        commands
    }

    /// Takes note that the tailer `tailer` of `name` could not be started
    /// or has ended by itself. The container is left unwatched and nothing
    /// is tried again. Word of a tailer that `name` no longer has, because
    /// a later start replaced it, changes nothing.
    pub fn on_tailer_ended(&mut self, name: &String, tailer: u64)
        requires
            old(self).wf(),
        ensures
            final(self).wf(),
            final(self)@ == old(self)@.released(name@, tailer),
    {
        let ghost before = entries(self.handles@);
        match self.find(name) {
            Some(i) => {
                if self.handles[i].tailer == tailer {
                    self.handles.remove(i);
                    proof {
                        lemma_remove(before, i as int);
                        assert(entries(self.handles@) =~= before.remove(i as int));
                    }
                }
            },
            None => {},
        }
    }

    /// Registers a tailer for each of the containers that run at startup,
    /// in the order given.
    pub fn seed(&mut self, names: &Vec<String>) -> (commands: Vec<Command>)
        requires
            old(self).wf(),
            old(self)@.issued + names.len() <= u64::MAX,
        ensures
            final(self).wf(),
            final(self)@ == old(self)@.seed(text_views(names@)),
            command_views(commands@) == old(self)@.seed_commands(text_views(names@)),
    {
        let mut commands: Vec<Command> = Vec::new();
        let ghost all = text_views(names@);
        let mut i: usize = 0;
        while i < names.len()
            invariant
                i <= names.len(),
                all == text_views(names@),
                self.wf(),
                old(self)@.issued + names.len() <= u64::MAX,
                self@.issued == old(self)@.issued + i,
                self@ == old(self)@.seed(all.take(i as int)),
                command_views(commands@) == old(self)@.seed_commands(all.take(i as int)),
            decreases names.len() - i,
        {
            proof {
                let next = all.take(i + 1);
                assert(next.drop_last() =~= all.take(i as int));
            }
            self.install(names[i].clone(), &mut commands);
            i += 1;
        }
        assert(all.take(i as int) =~= all);
        commands
    }

    /// Reacts to the lifecycle action `action` that the runtime announced
    /// for the container `name` at `now`. The action is forwarded as an
    /// event whatever it is; `start` starts a tailer in place of the one
    /// that `name` had; `stop`, `die` and `kill` cancel the tailer of
    /// `name` if it has one; any other action changes nothing.
    pub fn on_lifecycle_action(&mut self, name: String, action: String, now: Timestamp) -> (commands:
        Vec<Command>)
        requires
            old(self).wf(),
            is_start(action@) ==> old(self)@.issued < u64::MAX,
        ensures
            final(self).wf(),
            final(self)@ == old(self)@.after_action(name@, action@),
            command_views(commands@) == old(self)@.action_commands(name@, action@, now@),
    {
        let mut commands: Vec<Command> = Vec::new();
        let starts = action == String::from_str("start");
        let stops = action == String::from_str("kill") || action == String::from_str("die")
            || action == String::from_str("stop");
        commands.push(Command::Forward(Event::docker_action(name.clone(), action, now)));
        assert(command_views(commands@) =~= seq![
            CommandView::Forward(
                EventView::DockerAction { container_name: name@, action: action@, timestamp: now@ },
            ),
        ]);
        if starts {
            self.install(name, &mut commands);
        } else if stops {
            self.uninstall(&name, &mut commands);
        }
        commands
    }
}

/// A container that starts and then stops, dies or is killed is no longer
/// watched, and the tailer that was started for it is the one cancelled.
pub proof fn lemma_start_then_stop(
    manager: WatcherView,
    name: Seq<char>,
    halt: Seq<char>,
    now: TimestampView,
)
    requires
        is_stop(halt),
    ensures
        !manager.after_action(name, "start"@).after_action(name, halt).handles.contains_key(name),
        manager.after_action(name, "start"@).action_commands(name, halt, now) == seq![
            CommandView::Forward(
                EventView::DockerAction { container_name: name, action: halt, timestamp: now },
            ),
            CommandView::Cancel { tailer: manager.issued as u64 },
        ],
{
    lemma_actions_differ();
}

/// Stopping a container that has no handle changes nothing and cancels
/// nothing: the action is forwarded and that is all.
pub proof fn lemma_stop_unwatched(
    manager: WatcherView,
    name: Seq<char>,
    halt: Seq<char>,
    now: TimestampView,
)
    requires
        is_stop(halt),
        !manager.handles.contains_key(name),
    ensures
        manager.after_action(name, halt) == manager,
        manager.action_commands(name, halt, now) == seq![
            CommandView::Forward(
                EventView::DockerAction { container_name: name, action: halt, timestamp: now },
            ),
        ],
{
    lemma_actions_differ();
    assert(manager.handles.remove(name) =~= manager.handles);
}

/// A second start for a watched container installs a new tailer in place
/// of the old one: the old tailer is retired, no other container is
/// touched, and no entry is added.
pub proof fn lemma_duplicate_start(manager: WatcherView, name: Seq<char>)
    requires
        manager.wf(),
        manager.issued < u64::MAX,
        manager.handles.contains_key(name),
    ensures
        manager.start(name).wf(),
        manager.start(name).handles.dom() == manager.handles.dom(),
        manager.start(name).handles[name] == manager.issued,
        manager.start(name).handles[name] != manager.handles[name],
        forall|other: Seq<char>|
            other != name && manager.handles.contains_key(other) ==> #[trigger] manager.start(
                name,
            ).handles[other] == manager.handles[other],
        manager.start_commands(name) == seq![
            CommandView::Retire { tailer: manager.handles[name] },
            CommandView::Start { name, tailer: manager.issued as u64 },
        ],
{
}

/// The end of a tailer that was replaced leaves its successor alone: after
/// a second start for a watched container, word that the old tailer has
/// ended changes nothing, and word that the new one has ended leaves the
/// container unwatched.
pub proof fn lemma_stale_end_is_ignored(manager: WatcherView, name: Seq<char>)
    requires
        manager.wf(),
        manager.handles.contains_key(name),
    ensures
        manager.start(name).released(name, manager.handles[name]) == manager.start(name),
        !manager.start(name).released(name, manager.issued as u64).handles.contains_key(name),
{
}

/// The manager's own number is no tailer's.
pub proof fn lemma_manager_is_no_tailer(manager: WatcherView, name: Seq<char>)
    requires
        manager.wf(),
        manager.handles.contains_key(name),
    ensures
        manager.handles[name] != MANAGER,
{
}

/// Every lifecycle action keeps the manager well formed.
pub proof fn lemma_action_keeps_wf(manager: WatcherView, name: Seq<char>, action: Seq<char>)
    requires
        manager.wf(),
        is_start(action) ==> manager.issued < u64::MAX,
    ensures
        manager.after_action(name, action).wf(),
{
}

/// The word `start` is none of the words that stop a tailer.
proof fn lemma_actions_differ()
    ensures
        !is_stop("start"@),
{
    reveal_strlit("start");
    reveal_strlit("kill");
    reveal_strlit("die");
    reveal_strlit("stop");
    assert("start"@[2] == 'a');
}

} // verus!
