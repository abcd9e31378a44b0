//! The command descriptor, the per-command parse outcome, and the keyed
//! collection of outcomes the command pass produces.

use vstd::prelude::*;

use crate::args::{opt_str_eq, Arg, ArgResults, ArgView, Output, OutputView};
use crate::flags::flag_entries;

verus! {

/// The mathematical value of a [`Command`].
pub struct CommandView {
    pub name: Seq<char>,
    pub help: Option<Seq<char>>,
    pub args: Seq<ArgView>,
}

impl CommandView {
    /// The view a fresh command starts from: only the name is populated.
    pub open spec fn init(name: Seq<char>) -> CommandView {
        CommandView { name, help: None, args: Seq::empty() }
    }

    /// `self` with the help text replaced.
    pub open spec fn with_help(self, help: Seq<char>) -> CommandView {
        CommandView { help: Some(help), ..self }
    }

    /// `self` with one descriptor appended.
    pub open spec fn with_arg(self, a: ArgView) -> CommandView {
        CommandView { args: self.args.push(a), ..self }
    }

    /// `self` with the whole descriptor set replaced.
    pub open spec fn with_args(self, args: Seq<ArgView>) -> CommandView {
        CommandView { args, ..self }
    }
}

/// One recognized top-level keyword, with the descriptors scoped to it.
/// A command's own descriptor set is validated independently of the
/// top-level one.
#[derive(Clone, Debug)]
pub struct Command {
    pub name: String,
    pub help: Option<String>,
    pub args: Vec<Arg>,
}

impl View for Command {
    type V = CommandView;

    open spec fn view(&self) -> CommandView {
        CommandView {
            name: self.name@,
            help: self.help.deep_view(),
            args: self.args.deep_view(),
        }
    }
}

impl DeepView for Command {
    type V = CommandView;

    open spec fn deep_view(&self) -> CommandView {
        self.view()
    }
}

/// Whether two descriptor lists hold pairwise equal descriptors.
pub fn vec_arg_eq(a: &Vec<Arg>, b: &Vec<Arg>) -> (r: bool)
    ensures
        r == (a.deep_view() == b.deep_view()),
{
    if a.len() != b.len() {
        proof {
            assert(a.deep_view().len() == a@.len());
            assert(b.deep_view().len() == b@.len());
        }
        return false;
    }
    let n = a.len();
    let mut i: usize = 0;
    while i < n
        invariant
            0 <= i <= n,
            n == a@.len(),
            n == b@.len(),
            forall|k: int| 0 <= k < i ==> a.deep_view()[k] == b.deep_view()[k],
        decreases n - i,
    {
        if !(a[i] == b[i]) {
            assert(a.deep_view()[i as int] != b.deep_view()[i as int]);
            return false;
        }
        i += 1;
    }
    proof {
        assert(a.deep_view() =~= b.deep_view());
    }
    true
}

/// Whether two command lists hold pairwise equal commands.
pub fn vec_cmd_eq(a: &Vec<Command>, b: &Vec<Command>) -> (r: bool)
    ensures
        r == (a.deep_view() == b.deep_view()),
{
    if a.len() != b.len() {
        proof {
            assert(a.deep_view().len() == a@.len());
            assert(b.deep_view().len() == b@.len());
        }
        return false;
    }
    let n = a.len();
    let mut i: usize = 0;
    while i < n
        invariant
            0 <= i <= n,
            n == a@.len(),
            n == b@.len(),
            forall|k: int| 0 <= k < i ==> a.deep_view()[k] == b.deep_view()[k],
        decreases n - i,
    {
        if !(a[i] == b[i]) {
            assert(a.deep_view()[i as int] != b.deep_view()[i as int]);
            return false;
        }
        i += 1;
    }
    proof {
        assert(a.deep_view() =~= b.deep_view());
    }
    true
}

impl PartialEq for Command {
    fn eq(&self, other: &Command) -> (r: bool) {
        self.name == other.name && opt_str_eq(&self.help, &other.help)
            && vec_arg_eq(&self.args, &other.args)
    }
}

impl Eq for Command {

}

impl vstd::std_specs::cmp::PartialEqSpecImpl for Command {
    open spec fn obeys_eq_spec() -> bool {
        true
    }

    open spec fn eq_spec(&self, other: &Command) -> bool {
        self@ == other@
    }
}

impl Command {
    /// A fresh command: no help, no scoped descriptors.
    pub fn new(name: String) -> (r: Command)
        ensures
            r@ == CommandView::init(name@),
    {
        let r = Command { name, help: None, args: Vec::new() };
        proof {
            assert(r.args.deep_view() =~= Seq::<ArgView>::empty());
        }
        r
    }

    /// Replaces the help text; calling it twice keeps the later one.
    pub fn help(self, help: String) -> (r: Command)
        ensures
            r@ == self@.with_help(help@),
    {
        Command { help: Some(help), ..self }
    }

    /// Appends one descriptor to the command's own set.
    pub fn arg(self, a: Arg) -> (r: Command)
        ensures
            r@ == self@.with_arg(a@),
    {
        let mut me = self;
        me.args.push(a);
        proof {
            assert(me.args.deep_view() =~= self.args.deep_view().push(a@));
        }
        me
    }

    /// Replaces the command's whole descriptor set.
    pub fn args(self, args: Vec<Arg>) -> (r: Command)
        ensures
            r@ == self@.with_args(args.deep_view()),
    {
        Command { args, ..self }
    }
}

/// The parse outcome for one command found in the raw tokens: the
/// half-open token-index range `[range_start, range_end)` the command and
/// its arguments occupy, the captures of its positional descriptors, and
/// the multi-valued captures of its flag descriptors.
#[derive(Debug)]
pub struct Commands {
    pub command: String,
    pub range_start: usize,
    pub range_end: usize,
    pub present_args: ArgResults,
    pub present_flags: multimap::MultiMap<String, Output>,
}

/// The mathematical value of a [`Commands`].
pub struct CommandsView {
    pub command: Seq<char>,
    pub range_start: int,
    pub range_end: int,
    pub present_args: Map<Seq<char>, OutputView>,
    pub present_flags: Map<Seq<char>, Seq<OutputView>>,
}

impl View for Commands {
    type V = CommandsView;

    open spec fn view(&self) -> CommandsView {
        CommandsView {
            command: self.command@,
            range_start: self.range_start as int,
            range_end: self.range_end as int,
            present_args: self.present_args@,
            present_flags: flag_entries(self.present_flags),
        }
    }
}

impl DeepView for Commands {
    type V = CommandsView;

    open spec fn deep_view(&self) -> CommandsView {
        self.view()
    }
}

/// Whether no two outcomes in `s` are recorded under the same command
/// name.
pub open spec fn unique_command_names(s: Seq<CommandsView>) -> bool {
    forall|i: int, j: int|
        0 <= i < j < s.len() ==> #[trigger] s[i].command != #[trigger] s[j].command
}

/// The mapping an ordered outcome list stands for: a later outcome for the
/// same command name overwrites the earlier one.
pub open spec fn commands_to_map(s: Seq<CommandsView>) -> Map<Seq<char>, CommandsView>
    decreases s.len(),
{
    if s.len() == 0 {
        Map::empty()
    } else {
        commands_to_map(s.drop_last()).insert(s.last().command, s.last())
    }
}

proof fn lemma_unique_commands_drop_last(s: Seq<CommandsView>)
    requires
        unique_command_names(s),
        s.len() > 0,
    ensures
        unique_command_names(s.drop_last()),
{
    assert forall|i: int, j: int|
        0 <= i < j < s.drop_last().len() implies #[trigger] s.drop_last()[i].command != #[trigger] s.drop_last()[j].command by {
        assert(s.drop_last()[i] == s[i]);
        assert(s.drop_last()[j] == s[j]);
    }
}

proof fn lemma_commands_to_map_update(s: Seq<CommandsView>, i: int, o: CommandsView)
    requires
        unique_command_names(s),
        0 <= i < s.len(),
        s[i].command == o.command,
    ensures
        commands_to_map(s.update(i, o)) == commands_to_map(s).insert(o.command, o),
    decreases s.len(),
{
    let t = s.update(i, o);
    lemma_unique_commands_drop_last(s);
    if i == s.len() - 1 {
        assert(t.drop_last() =~= s.drop_last());
        assert(t.last() == o);
        assert(commands_to_map(s.drop_last()).insert(s.last().command, s.last()).insert(
            o.command,
            o,
        ) =~= commands_to_map(s.drop_last()).insert(o.command, o));
    } else {
        assert(t.drop_last() =~= s.drop_last().update(i, o));
        lemma_commands_to_map_update(s.drop_last(), i, o);
        assert(t.last() == s.last());
        assert(s.last().command != o.command);
        assert(commands_to_map(s.drop_last()).insert(o.command, o).insert(
            s.last().command,
            s.last(),
        ) =~= commands_to_map(s.drop_last()).insert(s.last().command, s.last()).insert(
            o.command,
            o,
        ));
    }
}

proof fn lemma_commands_to_map_found(s: Seq<CommandsView>, i: int)
    requires
        unique_command_names(s),
        0 <= i < s.len(),
    ensures
        commands_to_map(s).contains_key(s[i].command),
        commands_to_map(s)[s[i].command] == s[i],
    decreases s.len(),
{
    lemma_unique_commands_drop_last(s);
    if i < s.len() - 1 {
        lemma_commands_to_map_found(s.drop_last(), i);
        assert(s.drop_last()[i] == s[i]);
        assert(s.last().command != s[i].command);
    }
}

proof fn lemma_commands_to_map_absent(s: Seq<CommandsView>, k: Seq<char>)
    requires
        forall|i: int| 0 <= i < s.len() ==> (#[trigger] s[i].command) != k,
    ensures
        !commands_to_map(s).contains_key(k),
    decreases s.len(),
{
    if s.len() > 0 {
        lemma_commands_to_map_absent(s.drop_last(), k);
    }
}

/// The error an accessor reports when the queried name was never
/// captured.
#[derive(Clone, Copy, Debug, PartialEq, Eq, Structural)]
pub enum LookupError {
    NotFound,
}

/// The outcomes of the command pass, keyed by command name. The library's
/// own replacement for a hash map from name to [`Commands`]: a later
/// outcome for the same name overwrites the earlier one.
#[derive(Debug)]
pub struct CmdResults {
    entries: Vec<Commands>,
}

impl View for CmdResults {
    type V = Map<Seq<char>, CommandsView>;

    closed spec fn view(&self) -> Map<Seq<char>, CommandsView> {
        commands_to_map(self.entries.deep_view())
    }
}

impl CmdResults {
    #[verifier::type_invariant]
    spec fn inv(self) -> bool {
        unique_command_names(self.entries.deep_view())
    }

    /// An empty outcome set.
    pub fn new() -> (r: CmdResults)
        ensures
            r@ =~= Map::empty(),
    {
        CmdResults { entries: Vec::new() }
    }

    /// Records one outcome under its command name, overwriting any
    /// earlier outcome for the same name.
    pub fn insert(&mut self, c: Commands)
        ensures
            final(self)@ == old(self)@.insert(c.command@, c@),
    {
        proof {
            use_type_invariant(&*self);
        }
        let mut entries: Vec<Commands> = Vec::new();
        std::mem::swap(&mut entries, &mut self.entries);
        let ghost s = entries.deep_view();
        proof {
            assert(old(self).entries.deep_view() =~= s);
        }
        let ghost cv = c@;
        let n = entries.len();
        let mut i: usize = 0;
        while i < n
            invariant
                0 <= i <= n,
                n == entries@.len(),
                s == entries.deep_view(),
                old(self).entries.deep_view() == s,
                unique_command_names(s),
                cv == c@,
                forall|k: int| 0 <= k < i ==> (#[trigger] s[k].command) != cv.command,
            decreases n - i,
        {
            if entries[i].command == c.command {
                assert(s[i as int].command == cv.command);
                entries.set(i, c);
                proof {
                    let t = entries.deep_view();
                    assert(t =~= s.update(i as int, cv));
                    lemma_commands_to_map_update(s, i as int, cv);
                    assert(commands_to_map(t) == commands_to_map(s).insert(cv.command, cv));
                    assert forall|a: int, b: int|
                        0 <= a < b < t.len() implies (#[trigger] t[a].command) != (
                    #[trigger] t[b].command) by {
                        assert(t[a].command == s[a].command);
                        assert(t[b].command == s[b].command);
                    }
                }
                self.entries = entries;
                return ;
            }
            i += 1;
        }
        entries.push(c);
        proof {
            let t = entries.deep_view();
            assert(t.drop_last() =~= s);
            assert(t.last() == cv);
            assert(commands_to_map(t) == commands_to_map(s).insert(cv.command, cv));
            assert forall|a: int, b: int|
                0 <= a < b < t.len() implies (#[trigger] t[a].command) != (
            #[trigger] t[b].command) by {
                assert(t[a] == s[a]);
                if b < t.len() - 1 {
                    assert(t[b] == s[b]);
                } else {
                    assert(t[b] == cv);
                }
            }
        }
        self.entries = entries;
    }

    /// The outcome recorded under `key`, if any.
    pub fn get(&self, key: &String) -> (r: Option<&Commands>)
        ensures
            match r {
                Some(c) => self@.contains_key(key@) && c@ == self@[key@],
                None => !self@.contains_key(key@),
            },
    {
        proof {
            use_type_invariant(&*self);
        }
        let ghost s = self.entries.deep_view();
        let n = self.entries.len();
        let mut i: usize = 0;
        while i < n
            invariant
                0 <= i <= n,
                n == self.entries@.len(),
                s == self.entries.deep_view(),
                unique_command_names(s),
                forall|k: int| 0 <= k < i ==> (#[trigger] s[k].command) != key@,
            decreases n - i,
        {
            if self.entries[i].command == *key {
                proof {
                    lemma_commands_to_map_found(s, i as int);
                }
                return Some(&self.entries[i]);
            }
            i += 1;
        }
        proof {
            lemma_commands_to_map_absent(s, key@);
        }
        None
    }

    /// Whether an outcome was captured under `key`. Only the command
    /// mapping is consulted, never the argument or flag captures inside
    /// the outcomes.
    pub fn is_present(&self, key: &String) -> (r: bool)
        ensures
            r == self@.contains_key(key@),
    {
        match self.get(key) {
            Some(_) => true,
            None => false,
        }
    }

    /// The outcome captured under `key`, or [`LookupError::NotFound`].
    pub fn value_of(&self, key: &String) -> (r: Result<&Commands, LookupError>)
        ensures
            match r {
                Ok(c) => self@.contains_key(key@) && c@ == self@[key@],
                Err(e) => !self@.contains_key(key@) && e == LookupError::NotFound,
            },
    {
        match self.get(key) {
            Some(c) => Ok(c),
            None => Err(LookupError::NotFound),
        }
    }
}

} // verus!
