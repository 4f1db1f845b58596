use crate::errors::Error;
use crate::event::{effect, effect_of, Effect, Event, Tick};
use crate::selection::{
    ascending, lemma_add_wf, lemma_ascending_unique, lemma_put_at, lemma_put_contains,
    lemma_select_next_cases, lemma_select_prev_cases, put, Entry, Field, Selection,
};
use crate::text::{compare, lemma_lex_lt_irreflexive, lex_lt, Order};
use crate::Args;
use vstd::prelude::*;

verus! {

/// A value found under a key of a task's property block. Only text is ever
/// shown, so every other kind of value is the same to this library.
#[derive(Debug, PartialEq, Eq)]
pub enum Value {
    Text(String),
    Other,
}

impl Clone for Value {
    fn clone(&self) -> (v: Value)
        ensures
            v == *self,
    {
        match self {
            Value::Text(s) => Value::Text(s.clone()),
            Value::Other => Value::Other,
        }
    }
}

/// The two optional properties of a task that the display shows.
#[derive(Debug, PartialEq, Eq)]
pub struct ItemProps {
    pub desc: Option<Value>,
    pub summary: Option<Value>,
}

/// What an optional property holds.
pub open spec fn field_of(v: Option<Value>) -> Field {
    match v {
        None => Field::Absent,
        Some(Value::Other) => Field::NotText,
        Some(Value::Text(s)) => Field::Text(s@),
    }
}

/// The entry that a name and its properties make.
pub open spec fn entry_of(name: Seq<char>, props: ItemProps) -> Entry {
    Entry { name, desc: field_of(props.desc), summary: field_of(props.summary) }
}

/// The tasks in ascending order of their names, and the position of the one
/// that is selected.
#[derive(Debug)]
pub struct ItemList {
    list: Vec<(String, ItemProps)>,
    state: Option<usize>,
}

impl View for ItemList {
    type V = Selection;

    closed spec fn view(&self) -> Selection {
        Selection {
            entries: Seq::new(
                self.list.len() as nat,
                |i: int| entry_of(self.list[i].0@, self.list[i].1),
            ),
            cursor: match self.state {
                Some(c) => Some(c as nat),
                None => None,
            },
        }
    }
}

impl ItemList {
    #[verifier::type_invariant]
    spec fn inv(&self) -> bool {
        self@.wf()
    }

    /// A list without tasks and with nothing selected.
    pub fn new() -> (items: ItemList)
        ensures
            items@ == Selection::empty(),
    {
        let items = ItemList { list: Vec::new(), state: None };
        assert(items@.entries =~= Seq::empty());
        items
    }

    /// The first position whose name does not come before `name`, and
    /// whether the name at that position is `name` itself.
    fn position(&self, name: &str) -> (at: (usize, bool))
        ensures
            at.0 <= self@.len(),
            forall|i: int| 0 <= i < at.0 ==> lex_lt(#[trigger] self@.entries[i].name, name@),
            at.0 < self@.len() ==> !lex_lt(self@.entries[at.0 as int].name, name@),
            at.1 == (at.0 < self@.len() && self@.entries[at.0 as int].name == name@),
    {
        let mut k: usize = 0;
        while k < self.list.len()
            invariant
                k <= self.list.len(),
                forall|i: int| 0 <= i < k ==> lex_lt(#[trigger] self@.entries[i].name, name@),
            decreases self.list.len() - k,
        {
            match compare(self.list[k].0.as_str(), name) {
                Order::Before => {
                    k += 1;
                },
                Order::Same => {
                    proof {
                        lemma_lex_lt_irreflexive(name@);
                    }
                    return (k, true);
                },
                Order::After => {
                    return (k, false);
                },
            }
        }
        (k, false)
    }

    /// Adds a task, or replaces the properties of the task of that name. The
    /// tasks stay in ascending order of their names; the cursor keeps its
    /// position.
    pub fn add_item(&mut self, name: String, desc: Option<Value>, summary: Option<Value>)
        ensures
            final(self)@ == old(self)@.add(entry_of(name@, ItemProps { desc, summary })),
    {
        proof {
            use_type_invariant(&*self);
        }
        let (k, same) = self.position(name.as_str());
        let props = ItemProps { desc, summary };
        proof {
            lemma_put_at(self@.entries, entry_of(name@, props), k as int);
        }
        let state = self.state;
        self.state = None;
        let mut list = Vec::new();
        std::mem::swap(&mut list, &mut self.list);
        if same {
            list.set(k, (name, props));
        } else {
            list.insert(k, (name, props));
        }
        assert(Seq::new(list.len() as nat, |i: int| entry_of(list[i].0@, list[i].1)) =~= put(
            old(self)@.entries,
            entry_of(name@, props),
        ));
        self.list = list;
        self.state = state;
    }

    /// The number of tasks.
    pub fn len(&self) -> (n: usize)
        ensures
            n == self@.len(),
            self@.wf(),
        no_unwind
    {
        proof {
            use_type_invariant(self);
        }
        self.list.len()
    }

    /// The task under the cursor: its name and its properties.
    pub fn current(&self) -> (entry: Option<&(String, ItemProps)>)
        ensures
            match entry {
                Some(e) => self@.current() == Some(entry_of(e.0@, e.1)),
                None => self@.current() is None,
            },
    {
        proof {
            use_type_invariant(self);
        }
        match self.state {
            Some(i) => Some(&self.list[i]),
            None => None,
        }
    }

    /// The names of the tasks, in ascending order.
    pub fn name_list(&self) -> (names: Vec<String>)
        ensures
            names@.len() == self@.len(),
            forall|i: int| 0 <= i < names@.len() ==> (#[trigger] names@[i])@ == self@.entries[i].name,
    {
        let mut names: Vec<String> = Vec::new();
        let mut i: usize = 0;
        while i < self.list.len()
            invariant
                i <= self.list.len(),
                names@.len() == i,
                forall|j: int| 0 <= j < i ==> (#[trigger] names@[j])@ == self@.entries[j].name,
            decreases self.list.len() - i,
        {
            names.push(self.list[i].0.clone());
            i += 1;
        }
        names
    }

    /// The position of the selected task, if one is selected.
    pub fn selected(&self) -> (cursor: Option<usize>)
        ensures
            self@.cursor == match cursor {
                Some(c) => Some(c as nat),
                None => None,
            },
            self@.wf(),
        no_unwind
    {
        proof {
            use_type_invariant(self);
        }
        self.state
    }

    /// Selects the first task.
    pub fn select_first(&mut self)
        requires
            old(self)@.len() >= 1,
        ensures
            final(self)@ == old(self)@.select_first(),
            final(self)@.cursor == Some(0nat),
        no_unwind
    {
        proof {
            use_type_invariant(&*self);
        }
        self.state = Some(0);
    }

    /// Selects the task after the selected one, and after the last task the
    /// first. With nothing selected yet, selects the first task.
    pub fn select_next(&mut self)
        requires
            old(self)@.len() >= 1,
        ensures
            final(self)@ == old(self)@.select_next(),
        no_unwind
    {
        proof {
            use_type_invariant(&*self);
            lemma_select_next_cases(self@);
        }
        match self.state {
            Some(i) => {
                if i >= self.list.len() - 1 {
                    self.state = Some(0);
                } else {
                    self.state = Some(i + 1);
                }
            },
            None => {
                self.state = Some(0);
            },
        }
    }

    /// Selects the task before the selected one, and before the first task
    /// the last. With nothing selected yet, selects the first task.
    pub fn select_prev(&mut self)
        requires
            old(self)@.len() >= 1,
        ensures
            final(self)@ == old(self)@.select_prev(),
        no_unwind
    {
        proof {
            use_type_invariant(&*self);
            lemma_select_prev_cases(self@);
        }
        match self.state {
            Some(i) => {
                if i == 0 {
                    self.state = Some(self.list.len() - 1);
                } else {
                    self.state = Some(i - 1);
                }
            },
            None => {
                self.state = Some(0);
            },
        }
    }
}

/// The file names that a Taskfile may have, the most important first.
pub const TASKFILE_NAMES: [&'static str; 2] = ["Taskfile.yml", "Taskfile.yaml"];

/// The version that a Taskfile has to declare.
pub const TASKFILE_VERSION: &'static str = "3";

/// The properties of a task as they stand in the file, each a key and a
/// value.
pub type Block = Vec<(String, Value)>;

/// A task as it stands in the file: its name and its properties.
pub type Task = (String, Block);

/// A Taskfile as far as this program reads it: the version it declares and
/// its tasks.
#[derive(Debug, PartialEq, Eq)]
pub struct Taskfile {
    pub version: String,
    pub tasks: Vec<Task>,
}

/// What came of reading the Taskfile and parsing it.
#[derive(Debug, PartialEq, Eq)]
pub enum Source {
    /// The file could not be read.
    Unreadable,
    /// What the file holds does not have the structure of a Taskfile.
    Malformed,
    /// The file was read and parsed.
    Parsed(Taskfile),
}

/// What a block of properties holds under `key`. Where a key stands more
/// than once, its last value counts.
pub open spec fn lookup(block: Seq<(String, Value)>, key: Seq<char>) -> Field
    decreases block.len(),
{
    if block.len() == 0 {
        Field::Absent
    } else if block.last().0@ == key {
        field_of(Some(block.last().1))
    } else {
        lookup(block.drop_last(), key)
    }
}

/// The entry that a task of a Taskfile makes: of its properties only `desc`
/// and `summary` are read.
pub open spec fn task_entry(task: Task) -> Entry {
    Entry { name: task.0@, desc: lookup(task.1@, "desc"@), summary: lookup(task.1@, "summary"@) }
}

/// The entries that the tasks of a Taskfile make: each task is put in its
/// place by its name, a later task replacing an earlier one of the same
/// name.
pub open spec fn load(tasks: Seq<Task>) -> Seq<Entry>
    decreases tasks.len(),
{
    if tasks.len() == 0 {
        Seq::empty()
    } else {
        put(load(tasks.drop_last()), task_entry(tasks.last()))
    }
}

/// The entries of a Taskfile stand in ascending order of their names, so no
/// name occurs twice among them.
pub proof fn lemma_load_ascending(tasks: Seq<Task>)
    ensures
        ascending(load(tasks)),
    decreases tasks.len(),
{
    if tasks.len() > 0 {
        lemma_load_ascending(tasks.drop_last());
        lemma_add_wf(
            Selection { entries: load(tasks.drop_last()), cursor: None },
            task_entry(tasks.last()),
        );
    }
}

/// The task at `j` makes the entry `x`, and no later task has its name.
pub open spec fn is_last_of_name(tasks: Seq<Task>, j: int, x: Entry) -> bool {
    &&& 0 <= j < tasks.len()
    &&& task_entry(tasks[j]) == x
    &&& forall|k: int| j < k < tasks.len() ==> (#[trigger] tasks[k]).0@ != x.name
}

/// The entries of a Taskfile are those of its tasks whose name no later task
/// has: where a name stands more than once, its last task counts.
pub proof fn lemma_load_last_wins(tasks: Seq<Task>, x: Entry)
    ensures
        load(tasks).contains(x) <==> exists|j: int| is_last_of_name(tasks, j, x),
    decreases tasks.len(),
{
    if tasks.len() > 0 {
        let front = tasks.drop_last();
        let e = task_entry(tasks.last());
        lemma_load_last_wins(front, x);
        lemma_put_contains(load(front), e, x);
        if load(tasks).contains(x) {
            if x == e {
                assert(is_last_of_name(tasks, tasks.len() - 1, x));
            } else {
                let j = choose|j: int| is_last_of_name(front, j, x);
                assert(is_last_of_name(tasks, j, x)) by {
                    assert(tasks[j] == front[j]);
                    assert forall|k: int| j < k < tasks.len() implies (#[trigger] tasks[k]).0@
                        != x.name by {
                        if k < front.len() {
                            assert(front[k] == tasks[k]);
                        }
                    }
                }
            }
        }
        if exists|j: int| is_last_of_name(tasks, j, x) {
            let j = choose|j: int| is_last_of_name(tasks, j, x);
            if j < tasks.len() - 1 {
                assert(tasks[tasks.len() - 1].0@ != x.name);
                assert(task_entry(front[j]) == x);
                assert(is_last_of_name(front, j, x)) by {
                    assert forall|k: int| j < k < front.len() implies (#[trigger] front[k]).0@
                        != x.name by {
                        assert(front[k] == tasks[k]);
                    }
                }
            }
        }
    }
}

/// The entries of a Taskfile are the one ascending sequence that holds, for
/// each name, the entry of the last task of that name and nothing else.
pub proof fn lemma_load_unique(tasks: Seq<Task>, entries: Seq<Entry>)
    requires
        ascending(entries),
        forall|x: Entry| entries.contains(x) <==> exists|j: int| is_last_of_name(tasks, j, x),
    ensures
        entries == load(tasks),
{
    lemma_load_ascending(tasks);
    assert forall|x: Entry| entries.contains(x) <==> load(tasks).contains(x) by {
        lemma_load_last_wins(tasks, x);
    }
    lemma_ascending_unique(entries, load(tasks));
}

/// Looks `key` up in a block of properties.
fn find(block: &Block, key: &str) -> (value: Option<Value>)
    ensures
        field_of(value) == lookup(block@, key@),
{
    let mut i = block.len();
    assert(block@.take(i as int) =~= block@);
    while i > 0
        invariant
            i <= block.len(),
            lookup(block@, key@) == lookup(block@.take(i as int), key@),
        decreases i,
    {
        i -= 1;
        assert(block@.take(i + 1).drop_last() =~= block@.take(i as int));
        match compare(block[i].0.as_str(), key) {
            Order::Same => {
                return Some(block[i].1.clone());
            },
            _ => {},
        }
    }
    None
}

/// What the program shows and where its cursor stands.
#[derive(Debug)]
pub struct App {
    /// The tasks and the cursor. There is at least one task.
    items: ItemList,
    /// Whether the user has asked to run the selected task.
    execute_selected: bool,
}

/// The state of the program: the tasks with the cursor, and whether the user
/// has asked to run the selected task.
pub struct AppView {
    pub items: Selection,
    pub execute_selected: bool,
}

/// How a session ends.
#[derive(Debug, PartialEq, Eq)]
pub enum InteractionOutcome {
    /// The user left, and no task is to be run.
    Quit,
    /// The user chose the task of this name.
    Confirmed(String),
}

/// How a session ends: the user left, or chose the task of this name.
pub enum Outcome {
    Quit,
    Confirmed(Seq<char>),
}

impl View for InteractionOutcome {
    type V = Outcome;

    open spec fn view(&self) -> Outcome {
        match self {
            InteractionOutcome::Quit => Outcome::Quit,
            InteractionOutcome::Confirmed(name) => Outcome::Confirmed(name@),
        }
    }
}

/// The text shown for a description.
pub open spec fn desc_text(desc: Field) -> Seq<char> {
    match desc {
        Field::Absent => "Description is empty."@,
        Field::NotText => "Not a string."@,
        Field::Text(text) => text,
    }
}

/// The text shown for a summary.
pub open spec fn summary_text(summary: Field) -> Seq<char> {
    match summary {
        Field::Absent => "Summary is empty."@,
        Field::NotText => "Not a string."@,
        Field::Text(text) => text,
    }
}

/// The line that runs the task `name`, with the flag for the Taskfile of the
/// home directory after it if `global` is set.
pub open spec fn command_line(name: Seq<char>, global: bool) -> Seq<char> {
    "task "@ + name + " "@ + if global {
        "-g"@
    } else {
        Seq::empty()
    }
}

impl AppView {
    /// The name of the selected task.
    pub open spec fn current_name(self) -> Option<Seq<char>> {
        match self.items.current() {
            Some(entry) => Some(entry.name),
            None => None,
        }
    }

    /// The text of the description panel.
    pub open spec fn description(self) -> Seq<char> {
        match self.items.current() {
            Some(entry) => desc_text(entry.desc),
            None => "Item not found."@,
        }
    }

    /// The text of the summary panel.
    pub open spec fn summary(self) -> Seq<char> {
        match self.items.current() {
            Some(entry) => summary_text(entry.summary),
            None => "Item not found."@,
        }
    }

    /// The state with the first task selected.
    pub open spec fn select_first(self) -> AppView {
        AppView { items: self.items.select_first(), execute_selected: self.execute_selected }
    }

    /// What one event does: the state after it, and the outcome if the
    /// session ends with it. Confirming with nothing selected ends the
    /// session with no task to run.
    pub open spec fn step(self, event: Event) -> (AppView, Option<Outcome>) {
        match effect_of(event) {
            Effect::Quit => (self, Some(Outcome::Quit)),
            Effect::SelectNext => (
                AppView {
                    items: self.items.select_next(),
                    execute_selected: self.execute_selected,
                },
                None,
            ),
            Effect::SelectPrev => (
                AppView {
                    items: self.items.select_prev(),
                    execute_selected: self.execute_selected,
                },
                None,
            ),
            Effect::Confirm => (
                AppView { items: self.items, execute_selected: true },
                Some(
                    match self.current_name() {
                        Some(name) => Outcome::Confirmed(name),
                        None => Outcome::Quit,
                    },
                ),
            ),
            Effect::Nothing => (self, None),
        }
    }

    /// What one tick does. A failure of the terminal ends the session with
    /// an error; a tick without an event changes nothing.
    pub open spec fn tick(self, tick: Tick) -> (AppView, Result<Option<Outcome>, Error>) {
        match tick {
            Tick::Failed => (self, Err(Error::TerminalIOError)),
            Tick::Quiet => (self, Ok(None)),
            Tick::Event(event) => (self.step(event).0, Ok(self.step(event).1)),
        }
    }

    /// What a sequence of ticks does: they are taken one by one until the
    /// session ends or fails; the ticks after that are not looked at.
    pub open spec fn play(self, ticks: Seq<Tick>) -> (AppView, Result<Option<Outcome>, Error>)
        decreases ticks.len(),
    {
        if ticks.len() == 0 {
            (self, Ok(None))
        } else {
            let (next, end) = self.tick(ticks[0]);
            if end == Ok::<Option<Outcome>, Error>(None) {
                next.play(ticks.drop_first())
            } else {
                (next, end)
            }
        }
    }

    /// A whole session: the first task is selected, then the ticks are
    /// played.
    pub open spec fn run(self, ticks: Seq<Tick>) -> (AppView, Result<Option<Outcome>, Error>) {
        self.select_first().play(ticks)
    }
}

/// One tick never changes the entries, and a cursor that stands on one of
/// them still does after it.
pub proof fn lemma_tick_keeps_entries(s: AppView, tick: Tick)
    requires
        s.items.wf(),
        s.items.len() >= 1,
    ensures
        s.tick(tick).0.items.entries == s.items.entries,
        s.tick(tick).0.items.wf(),
        s.items.cursor is Some ==> s.tick(tick).0.items.cursor is Some,
{
    lemma_select_next_cases(s.items);
    lemma_select_prev_cases(s.items);
}

/// Whatever the ticks bring, a session never changes the entries, and once
/// the first task is selected the cursor always stands on one of them.
pub proof fn lemma_session_keeps_entries(s: AppView, ticks: Seq<Tick>)
    requires
        s.items.wf(),
        s.items.len() >= 1,
    ensures
        s.run(ticks).0.items.entries == s.items.entries,
        s.run(ticks).0.items.wf(),
        s.run(ticks).0.items.cursor is Some,
{
    lemma_play_keeps_entries(s.select_first(), ticks);
}

proof fn lemma_play_keeps_entries(s: AppView, ticks: Seq<Tick>)
    requires
        s.items.wf(),
        s.items.len() >= 1,
        s.items.cursor is Some,
    ensures
        s.play(ticks).0.items.entries == s.items.entries,
        s.play(ticks).0.items.wf(),
        s.play(ticks).0.items.cursor is Some,
    decreases ticks.len(),
{
    if ticks.len() > 0 {
        lemma_tick_keeps_entries(s, ticks[0]);
        lemma_play_keeps_entries(s.tick(ticks[0]).0, ticks.drop_first());
    }
}

/// What loading gives: the state of the program at its start, or the reason
/// why there is none.
pub open spec fn loaded(source: Source) -> Result<AppView, Error> {
    match source {
        Source::Unreadable => Err(Error::UnreadableFile),
        Source::Malformed => Err(Error::ParseError),
        Source::Parsed(taskfile) => if taskfile.version@ != TASKFILE_VERSION@ {
            Err(Error::UnsupportedVersion)
        } else if taskfile.tasks@.len() == 0 {
            Err(Error::NoTasksFound)
        } else {
            Ok(
                AppView {
                    items: Selection { entries: load(taskfile.tasks@), cursor: None },
                    execute_selected: false,
                },
            )
        },
    }
}

/// Whether a session ended as `end` says.
pub open spec fn ends_as(
    ended: Result<Option<InteractionOutcome>, Error>,
    end: Result<Option<Outcome>, Error>,
) -> bool {
    match ended {
        Ok(Some(outcome)) => end == Ok::<Option<Outcome>, Error>(Some(outcome@)),
        Ok(None) => end == Ok::<Option<Outcome>, Error>(None),
        Err(error) => end == Err::<Option<Outcome>, Error>(error),
    }
}

impl View for App {
    type V = AppView;

    closed spec fn view(&self) -> AppView {
        AppView { items: self.items@, execute_selected: self.execute_selected }
    }
}

impl App {
    #[verifier::type_invariant]
    spec fn inv(&self) -> bool {
        self.items@.len() >= 1
    }

    /// The program on these tasks, before the user has asked for anything.
    fn new(items: ItemList) -> (app: App)
        requires
            items@.len() >= 1,
        ensures
            app@ == (AppView { items: items@, execute_selected: false }),
    {
        App { items, execute_selected: false }
    }

    /// The tasks and the cursor.
    pub fn items(&self) -> (items: &ItemList)
        ensures
            items@ == self@.items,
            items@.wf(),
            items@.len() >= 1,
    {
        proof {
            use_type_invariant(self);
            use_type_invariant(&self.items);
        }
        &self.items
    }

    /// Whether the user has asked to run the selected task.
    pub fn execute_selected(&self) -> (flag: bool)
        ensures
            flag == self@.execute_selected,
    {
        self.execute_selected
    }

    /// The names of the tasks, in ascending order.
    pub fn name_list(&self) -> (names: Vec<String>)
        ensures
            names@.len() == self@.items.len(),
            forall|i: int|
                0 <= i < names@.len() ==> (#[trigger] names@[i])@ == self@.items.entries[i].name,
    {
        self.items.name_list()
    }

    /// The name of the selected task.
    pub fn get_current(&self) -> (name: Option<&str>)
        ensures
            match name {
                Some(n) => self@.current_name() == Some(n@),
                None => self@.current_name() is None,
            },
    {
        match self.items.current() {
            Some(entry) => Some(entry.0.as_str()),
            None => None,
        }
    }

    /// The description of the selected task, or the text that stands for it
    /// where there is none to show.
    pub fn get_desc(&self) -> (text: &str)
        ensures
            text@ == self@.description(),
    {
        match self.items.current() {
            Some(entry) => match &entry.1.desc {
                Some(Value::Text(text)) => text.as_str(),
                Some(Value::Other) => "Not a string.",
                None => "Description is empty.",
            },
            None => "Item not found.",
        }
    }

    /// The summary of the selected task, or the text that stands for it
    /// where there is none to show.
    pub fn get_summary(&self) -> (text: &str)
        ensures
            text@ == self@.summary(),
    {
        match self.items.current() {
            Some(entry) => match &entry.1.summary {
                Some(Value::Text(text)) => text.as_str(),
                Some(Value::Other) => "Not a string.",
                None => "Summary is empty.",
            },
            None => "Item not found.",
        }
    }

    /// Selects the first task.
    pub fn select_first(&mut self)
        ensures
            final(self)@ == old(self)@.select_first(),
    {
        proof {
            use_type_invariant(&*self);
        }
        self.items.select_first();
    }

    /// Takes one event: moves the cursor or notes that the selected task is
    /// to be run, and says how the session ends if it ends with this event.
    pub fn dispatch(&mut self, event: &Event) -> (outcome: Option<InteractionOutcome>)
        ensures
            final(self)@ == old(self)@.step(*event).0,
            match outcome {
                Some(o) => old(self)@.step(*event).1 == Some(o@),
                None => old(self)@.step(*event).1 is None,
            },
    {
        proof {
            use_type_invariant(&*self);
        }
        match effect(event) {
            Effect::Quit => Some(InteractionOutcome::Quit),
            Effect::SelectNext => {
                self.items.select_next();
                None
            },
            Effect::SelectPrev => {
                self.items.select_prev();
                None
            },
            Effect::Confirm => {
                self.execute_selected = true;
                match self.get_current() {
                    Some(name) => Some(InteractionOutcome::Confirmed(name.to_owned())),
                    None => Some(InteractionOutcome::Quit),
                }
            },
            Effect::Nothing => None,
        }
    }

    /// Takes what one tick brought: fails if the terminal failed, goes on
    /// if no event came, and takes the event if one came.
    pub fn tick(&mut self, tick: &Tick) -> (ended: Result<Option<InteractionOutcome>, Error>)
        ensures
            final(self)@ == old(self)@.tick(*tick).0,
            ends_as(ended, old(self)@.tick(*tick).1),
    {
        match tick {
            Tick::Failed => Err(Error::TerminalIOError),
            Tick::Quiet => Ok(None),
            Tick::Event(event) => Ok(self.dispatch(event)),
        }
    }
}

/// Sets the program up from what came of reading and parsing the Taskfile.
/// The file has to have been read and parsed, its version has to be the
/// supported one, and it has to define at least one task. The tasks come
/// out in ascending order of their names, with nothing selected.
pub fn init(source: &Source) -> (app: Result<App, Error>)
    ensures
        match app {
            Ok(app) => loaded(*source) == Ok::<AppView, Error>(app@),
            Err(error) => loaded(*source) == Err::<AppView, Error>(error),
        },
{
    let taskfile = match source {
        Source::Unreadable => {
            return Err(Error::UnreadableFile);
        },
        Source::Malformed => {
            return Err(Error::ParseError);
        },
        Source::Parsed(taskfile) => taskfile,
    };
    match compare(taskfile.version.as_str(), TASKFILE_VERSION) {
        Order::Same => {},
        _ => {
            return Err(Error::UnsupportedVersion);
        },
    }
    let mut items = ItemList::new();
    let mut i: usize = 0;
    while i < taskfile.tasks.len()
        invariant
            i <= taskfile.tasks.len(),
            items@ == (Selection { entries: load(taskfile.tasks@.take(i as int)), cursor: None }),
            i >= 1 ==> items@.len() >= 1,
        decreases taskfile.tasks.len() - i,
    {
        let task = &taskfile.tasks[i];
        let desc = find(&task.1, "desc");
        let summary = find(&task.1, "summary");
        proof {
            assert(taskfile.tasks@.take(i + 1).drop_last() =~= taskfile.tasks@.take(i as int));
            use_type_invariant(&items);
            lemma_add_wf(items@, task_entry(*task));
        }
        items.add_item(task.0.clone(), desc, summary);
        i += 1;
    }
    assert(taskfile.tasks@.take(i as int) =~= taskfile.tasks@);
    if items.len() == 0 {
        return Err(Error::NoTasksFound);
    }
    Ok(App::new(items))
}

/// Plays a session on what the ticks brought: selects the first task and
/// takes the ticks one by one until one of them ends the session. Says how
/// the session ended, or nothing if the ticks ran out before it did.
pub fn run(app: &mut App, ticks: &Vec<Tick>) -> (ended: Result<Option<InteractionOutcome>, Error>)
    ensures
        final(app)@ == old(app)@.run(ticks@).0,
        ends_as(ended, old(app)@.run(ticks@).1),
{
    app.select_first();
    let mut i: usize = 0;
    assert(ticks@.skip(0) =~= ticks@);
    while i < ticks.len()
        invariant
            i <= ticks.len(),
            app@.play(ticks@.skip(i as int)) == old(app)@.run(ticks@),
        decreases ticks.len() - i,
    {
        assert(ticks@.skip(i as int).drop_first() =~= ticks@.skip(i + 1));
        match app.tick(&ticks[i]) {
            Ok(None) => {},
            ended => {
                return ended;
            },
        }
        i += 1;
    }
    Ok(None)
}

/// The command line that runs the selected task, if a task is selected.
pub fn task_exec(args: &Args, app: &App) -> (line: Option<String>)
    ensures
        match line {
            Some(l) => app@.current_name() matches Some(name) && l@ == command_line(
                name,
                args.global,
            ),
            None => app@.current_name() is None,
        },
{
    match app.get_current() {
        Some(name) => {
            let mut line = "task ".to_owned();
            line.append(name);
            line.append(" ");
            if args.global {
                line.append("-g");
            }
            Some(line)
        },
        None => None,
    }
}

} // verus!
