//! The parser: configuration validation and the matching engine.
//!
//! A [`Parser`] borrows its descriptor sets read-only and consumes its
//! raw-token cursor once, left to right. The engine itself never raises
//! errors: tokens it cannot match are skipped, and all strictness
//! decisions are made separately through the `check_*` validator methods.

use vstd::prelude::*;

use crate::args::{Arg, ArgResults, ArgView, Output, OutputView};
use crate::commands::{vec_arg_eq, vec_cmd_eq, CmdResults, Command, CommandView, Commands, CommandsView};
use crate::flags::{flag_entries, mm_contains_key, mm_insert, mm_is_empty, mm_new, push_entry};
use crate::tokens::{
    bare_token_match, bare_tokens_contain, classify, spec_is_flag, spec_strip_flag, FancyArgs,
};
use vstd::std_specs::cmp::PartialEqSpec;

verus! {

/// The optional behaviors of a [`Parser`]. This version of the library
/// defines none, so the set is empty; it is kept so that a parser built
/// today and one built by a later version compare on the same fields.
#[derive(Clone, Copy, Debug, PartialEq, Eq, Structural)]
pub struct ParserSettings {}

impl ParserSettings {
    /// The empty behavior set.
    pub open spec fn spec_empty() -> ParserSettings {
        ParserSettings {  }
    }

    /// A settings value with no behavior enabled.
    pub fn empty() -> (r: ParserSettings)
        ensures
            r == ParserSettings::spec_empty(),
    {
        ParserSettings {  }
    }
}

/// The parser: the raw-token source, the top-level descriptor set, the
/// recognized commands, and the parser's own settings.
#[derive(Debug)]
pub struct Parser {
    pub raw_args: FancyArgs,
    pub args: Vec<Arg>,
    pub commands: Vec<Command>,
    pub settings: ParserSettings,
}

impl PartialEq for Parser {
    fn eq(&self, other: &Parser) -> (r: bool) {
        self.raw_args == other.raw_args && vec_arg_eq(&self.args, &other.args)
            && vec_cmd_eq(&self.commands, &other.commands) && self.settings == other.settings
    }
}

impl Eq for Parser {

}

impl vstd::std_specs::cmp::PartialEqSpecImpl for Parser {
    open spec fn obeys_eq_spec() -> bool {
        true
    }

    open spec fn eq_spec(&self, other: &Parser) -> bool {
        &&& self.raw_args@ == other.raw_args@
        &&& self.args.deep_view() == other.args.deep_view()
        &&& self.commands.deep_view() == other.commands.deep_view()
        &&& self.settings == other.settings
    }
}

impl Parser {
    /// Assembles a parser from a token source and optional descriptor
    /// sets; an absent set is the empty one.
    pub fn build(raw_args: FancyArgs, args: Option<Vec<Arg>>, commands: Option<Vec<Command>>) -> (r:
        Parser)
        ensures
            r.raw_args == raw_args,
            (args matches Some(a) ==> r.args == a),
            (args is None ==> r.args@.len() == 0),
            (commands matches Some(c) ==> r.commands == c),
            (commands is None ==> r.commands@.len() == 0),
            r.settings == ParserSettings::spec_empty(),
    {
        Parser {
            raw_args,
            args: match args {
                Some(a) => a,
                None => Vec::new(),
            },
            commands: match commands {
                Some(c) => c,
                None => Vec::new(),
            },
            settings: ParserSettings::empty(),
        }
    }

    /// Like [`Parser::build`], but first consumes one raw token: the
    /// conventional program-name token at the front of a process argument
    /// list.
    pub fn build2(raw_args: FancyArgs, args: Option<Vec<Arg>>, commands: Option<Vec<Command>>) -> (
        r: Parser)
        ensures
            r.raw_args@.tokens == raw_args@.tokens,
            r.raw_args@.cursor == if raw_args@.cursor < raw_args@.tokens.len() {
                raw_args@.cursor + 1
            } else {
                raw_args@.cursor
            },
            (args matches Some(a) ==> r.args == a),
            (args is None ==> r.args@.len() == 0),
            (commands matches Some(c) ==> r.commands == c),
            (commands is None ==> r.commands@.len() == 0),
            r.settings == ParserSettings::spec_empty(),
    {
        let mut raw_args = raw_args;
        let p = raw_args.pos();
        if p < raw_args.toks().len() {
            raw_args.set_pos(p + 1);
        }
        Parser {
            raw_args,
            args: match args {
                Some(a) => a,
                None => Vec::new(),
            },
            commands: match commands {
                Some(c) => c,
                None => Vec::new(),
            },
            settings: ParserSettings::empty(),
        }
    }
}

/// The value behind an optional reference, if any.
pub open spec fn opt_val<T>(o: Option<&T>) -> Option<T> {
    match o {
        Some(t) => Some(*t),
        None => None,
    }
}

/// The view behind an optional descriptor reference, if any.
pub open spec fn opt_arg_view(o: Option<&Arg>) -> Option<ArgView> {
    match o {
        Some(a) => Some(a@),
        None => None,
    }
}

/// The view behind an optional command reference, if any.
pub open spec fn opt_cmd_view(o: Option<&Command>) -> Option<CommandView> {
    match o {
        Some(c) => Some(c@),
        None => None,
    }
}

/// Whether the item at `i` has an equal item somewhere else in `s`.
pub open spec fn dup_at<T: PartialEqSpec>(s: Seq<T>, i: int) -> bool {
    exists|k: int| 0 <= k < s.len() && k != i && s[i].eq_spec(#[trigger] &s[k])
}

/// What `check_uniqueness` reports: `hit` says whether any item occurs
/// twice (by full value equality), and `item` is the first item, in scan
/// order, that does.
pub open spec fn uniqueness_report<T: PartialEqSpec>(s: Seq<T>, hit: bool, item: Option<T>) -> bool {
    &&& hit == exists|i: int| 0 <= i < s.len() && #[trigger] dup_at(s, i)
    &&& (hit ==> exists|i: int|
        {
            &&& 0 <= i < s.len()
            &&& #[trigger] dup_at(s, i)
            &&& forall|i2: int| 0 <= i2 < i ==> !#[trigger] dup_at(s, i2)
            &&& item == Some(s[i])
        })
    &&& (!hit ==> item is None)
}

/// Whether a command after position `i` carries the same name.
pub open spec fn cmd_name_collision_from(cvs: Seq<CommandView>, i: int) -> bool {
    exists|j: int| i < j < cvs.len() && cvs[i].name == (#[trigger] cvs[j]).name
}

/// What `check_command_names` reports: the first pair of commands, in
/// scan order, that share a name.
pub open spec fn command_names_report(
    cvs: Seq<CommandView>,
    hit: bool,
    first: Option<CommandView>,
    second: Option<CommandView>,
) -> bool {
    &&& hit == exists|i: int| 0 <= i < cvs.len() && #[trigger] cmd_name_collision_from(cvs, i)
    &&& (hit ==> exists|i: int, j: int|
        {
            &&& 0 <= i < j < cvs.len()
            &&& cvs[i].name == cvs[j].name
            &&& forall|i2: int| 0 <= i2 < i ==> !#[trigger] cmd_name_collision_from(cvs, i2)
            &&& forall|j2: int| i < j2 < j ==> cvs[i].name != (#[trigger] cvs[j2]).name
            &&& first == Some(cvs[i])
            &&& second == Some(cvs[j])
        })
    &&& (!hit ==> first is None && second is None)
}

/// Whether two descriptors collide: same name, same non-empty short
/// alias, or same non-empty long alias.
pub open spec fn args_collide(a: ArgView, b: ArgView) -> bool {
    ||| a.name == b.name
    ||| (a.short matches Some(x) && x.len() > 0 && b.short == Some(x))
    ||| (a.long matches Some(x) && x.len() > 0 && b.long == Some(x))
}

/// Whether a descriptor after position `i` collides with the one at `i`.
pub open spec fn arg_collision_from(avs: Seq<ArgView>, i: int) -> bool {
    exists|j: int| i < j < avs.len() && args_collide(avs[i], #[trigger] avs[j])
}

/// Whether the descriptor at `i` collides with a later one and does not
/// carry `MULTIPLE` (which suppresses its collisions).
pub open spec fn arg_blocking_from(avs: Seq<ArgView>, i: int) -> bool {
    !avs[i].settings.multiple && arg_collision_from(avs, i)
}

/// What `check_arg_names` reports: the first blocking pair of colliding
/// descriptors, in scan order.
pub open spec fn arg_names_report(
    avs: Seq<ArgView>,
    hit: bool,
    first: Option<ArgView>,
    second: Option<ArgView>,
) -> bool {
    &&& hit == exists|i: int| 0 <= i < avs.len() && #[trigger] arg_blocking_from(avs, i)
    &&& (hit ==> exists|i: int, j: int|
        {
            &&& 0 <= i < j < avs.len()
            &&& args_collide(avs[i], avs[j])
            &&& !avs[i].settings.multiple
            &&& forall|i2: int| 0 <= i2 < i ==> !#[trigger] arg_blocking_from(avs, i2)
            &&& forall|j2: int| i < j2 < j ==> !args_collide(avs[i], #[trigger] avs[j2])
            &&& first == Some(avs[i])
            &&& second == Some(avs[j])
        })
    &&& (!hit ==> first is None && second is None)
}

/// Whether a required descriptor is satisfied by the raw tokens: some
/// token's bare form (every leading dash removed) equals its name, short
/// alias, or long alias.
pub open spec fn required_satisfied(toks: Seq<Seq<char>>, a: ArgView) -> bool {
    ||| bare_token_match(toks, a.name)
    ||| (a.short matches Some(x) && bare_token_match(toks, x))
    ||| (a.long matches Some(x) && bare_token_match(toks, x))
}

/// Whether the descriptor at `i` is required but not satisfied.
pub open spec fn required_missing_from(toks: Seq<Seq<char>>, avs: Seq<ArgView>, i: int) -> bool {
    avs[i].settings.required && !required_satisfied(toks, avs[i])
}

/// What `check_required_args` reports: the first required descriptor, in
/// declaration order, that no raw token satisfies.
pub open spec fn required_report(
    toks: Seq<Seq<char>>,
    avs: Seq<ArgView>,
    missing: bool,
    item: Option<ArgView>,
) -> bool {
    &&& missing == exists|i: int|
        0 <= i < avs.len() && #[trigger] required_missing_from(toks, avs, i)
    &&& (missing ==> exists|i: int|
        {
            &&& 0 <= i < avs.len()
            &&& #[trigger] required_missing_from(toks, avs, i)
            &&& forall|i2: int| 0 <= i2 < i ==> !#[trigger] required_missing_from(toks, avs, i2)
            &&& item == Some(avs[i])
        })
    &&& (!missing ==> item is None)
}

/// Whether two descriptors collide as [`args_collide`] says.
pub fn args_collide_exec(a: &Arg, b: &Arg) -> (r: bool)
    ensures
        r == args_collide(a@, b@),
{
    if a.name == b.name {
        return true;
    }
    if let Some(x) = &a.short {
        if !x.as_str().is_empty() {
            if let Some(y) = &b.short {
                if *x == *y {
                    return true;
                }
            }
        }
    }
    if let Some(x) = &a.long {
        if !x.as_str().is_empty() {
            if let Some(y) = &b.long {
                if *x == *y {
                    return true;
                }
            }
        }
    }
    false
}

/// Whether the raw tokens satisfy one required descriptor.
fn required_satisfied_exec(toks: &Vec<String>, a: &Arg) -> (r: bool)
    ensures
        r == required_satisfied(toks.deep_view(), a@),
{
    if bare_tokens_contain(toks, &a.name) {
        return true;
    }
    if let Some(x) = &a.short {
        if bare_tokens_contain(toks, x) {
            return true;
        }
    }
    if let Some(x) = &a.long {
        if bare_tokens_contain(toks, x) {
            return true;
        }
    }
    false
}

impl Parser {
    /// Scans `items` in input order for an item that occurs twice, by
    /// full value equality, and reports the first one that does.
    pub fn check_uniqueness<'a, T: PartialEqSpec>(&self, items: &'a Vec<T>) -> (r: (
        bool,
        Option<&'a T>,
    ))
        requires
            T::obeys_eq_spec(),
        ensures
            uniqueness_report(items@, r.0, opt_val(r.1)),
    {
        let n = items.len();
        let mut i: usize = 0;
        while i < n
            invariant
                0 <= i <= n,
                n == items@.len(),
                T::obeys_eq_spec(),
                forall|i2: int| 0 <= i2 < i ==> !#[trigger] dup_at(items@, i2),
            decreases n - i,
        {
            let mut k: usize = 0;
            while k < n
                invariant
                    0 <= k <= n,
                    0 <= i < n,
                    n == items@.len(),
                    T::obeys_eq_spec(),
                    forall|i2: int| 0 <= i2 < i ==> !#[trigger] dup_at(items@, i2),
                    forall|k2: int|
                        0 <= k2 < k && k2 != i ==> !items@[i as int].eq_spec(#[trigger] &items@[k2]),
                decreases n - k,
            {
                if k != i && items[i] == items[k] {
                    assert(dup_at(items@, i as int));
                    return (true, Some(&items[i]));
                }
                k += 1;
            }
            assert(!dup_at(items@, i as int));
            i += 1;
        }
        (false, None)
    }

    /// Scans the parser's commands in order for two that share a name and
    /// reports the first such pair.
    pub fn check_command_names(&self) -> (r: (bool, Option<&Command>, Option<&Command>))
        ensures
            command_names_report(
                self.commands.deep_view(),
                r.0,
                opt_cmd_view(r.1),
                opt_cmd_view(r.2),
            ),
    {
        let ghost cvs = self.commands.deep_view();
        let n = self.commands.len();
        proof {
            assert(cvs.len() == n);
        }
        let mut i: usize = 0;
        while i < n
            invariant
                0 <= i <= n,
                n == self.commands@.len(),
                cvs == self.commands.deep_view(),
                cvs.len() == n,
                forall|i2: int| 0 <= i2 < i ==> !#[trigger] cmd_name_collision_from(cvs, i2),
            decreases n - i,
        {
            let mut j: usize = i + 1;
            while j < n
                invariant
                    0 <= i < j <= n,
                    n == self.commands@.len(),
                    cvs == self.commands.deep_view(),
                    cvs.len() == n,
                    forall|i2: int| 0 <= i2 < i ==> !#[trigger] cmd_name_collision_from(cvs, i2),
                    forall|j2: int| i < j2 < j ==> cvs[i as int].name != (#[trigger] cvs[j2]).name,
                decreases n - j,
            {
                proof {
                    assert(cvs[i as int] == self.commands@[i as int].deep_view());
                    assert(cvs[j as int] == self.commands@[j as int].deep_view());
                }
                if self.commands[i].name == self.commands[j].name {
                    assert(cvs[i as int].name == cvs[j as int].name);
                    assert(cmd_name_collision_from(cvs, i as int));
                    return (true, Some(&self.commands[i]), Some(&self.commands[j]));
                }
                j += 1;
            }
            assert(!cmd_name_collision_from(cvs, i as int));
            i += 1;
        }
        (false, None, None)
    }

    /// Scans the parser's descriptors in order for a blocking collision:
    /// a later descriptor with the same name, the same non-empty short
    /// alias, or the same non-empty long alias, where the earlier
    /// descriptor does not carry `MULTIPLE`. Reports the first such pair.
    pub fn check_arg_names(&self) -> (r: (bool, Option<&Arg>, Option<&Arg>))
        ensures
            arg_names_report(self.args.deep_view(), r.0, opt_arg_view(r.1), opt_arg_view(r.2)),
    {
        let ghost avs = self.args.deep_view();
        let n = self.args.len();
        proof {
            assert(avs.len() == n);
        }
        let mut i: usize = 0;
        while i < n
            invariant
                0 <= i <= n,
                n == self.args@.len(),
                avs == self.args.deep_view(),
                avs.len() == n,
                forall|i2: int| 0 <= i2 < i ==> !#[trigger] arg_blocking_from(avs, i2),
            decreases n - i,
        {
            proof {
                assert(avs[i as int] == self.args@[i as int].deep_view());
            }
            if !self.args[i].settings.multiple {
                let mut j: usize = i + 1;
                while j < n
                    invariant
                        0 <= i < j <= n,
                        n == self.args@.len(),
                        avs == self.args.deep_view(),
                        avs.len() == n,
                        !avs[i as int].settings.multiple,
                        forall|i2: int| 0 <= i2 < i ==> !#[trigger] arg_blocking_from(avs, i2),
                        forall|j2: int|
                            i < j2 < j ==> !args_collide(avs[i as int], #[trigger] avs[j2]),
                    decreases n - j,
                {
                    proof {
                        assert(avs[i as int] == self.args@[i as int].deep_view());
                        assert(avs[j as int] == self.args@[j as int].deep_view());
                    }
                    if args_collide_exec(&self.args[i], &self.args[j]) {
                        assert(args_collide(avs[i as int], avs[j as int]));
                        assert(arg_blocking_from(avs, i as int));
                        return (true, Some(&self.args[i]), Some(&self.args[j]));
                    }
                    j += 1;
                }
                assert(!arg_blocking_from(avs, i as int));
            } else {
                assert(!arg_blocking_from(avs, i as int));
            }
            i += 1;
        }
        (false, None, None)
    }

    /// Checks every `REQUIRED` descriptor against the whole raw-token
    /// list: a required descriptor is satisfied when some token's bare
    /// form (every leading dash removed) equals its name, short alias, or
    /// long alias. Reports the first unsatisfied one, in declaration
    /// order. An absent `args` means the parser's own descriptor set.
    pub fn check_required_args<'a>(&'a self, args: Option<&'a Vec<Arg>>) -> (r: (
        bool,
        Option<&'a Arg>,
    ))
        ensures
            ({
                let avs = match args {
                    Some(a) => a.deep_view(),
                    None => self.args.deep_view(),
                };
                required_report(self.raw_args@.tokens, avs, r.0, opt_arg_view(r.1))
            }),
    {
        let checked = match args {
            Some(a) => a,
            None => &self.args,
        };
        let ghost avs = checked.deep_view();
        let ghost toks = self.raw_args@.tokens;
        let n = checked.len();
        let mut i: usize = 0;
        proof {
            assert(avs.len() == n);
        }
        while i < n
            invariant
                0 <= i <= n,
                n == checked@.len(),
                avs == checked.deep_view(),
                avs == (match args {
                    Some(a) => a.deep_view(),
                    None => self.args.deep_view(),
                }),
                avs.len() == n,
                toks == self.raw_args@.tokens,
                forall|i2: int| 0 <= i2 < i ==> !#[trigger] required_missing_from(toks, avs, i2),
            decreases n - i,
        {
            proof {
                assert(avs[i as int] == checked@[i as int].deep_view());
            }
            if checked[i].settings.required {
                if !required_satisfied_exec(self.raw_args.toks(), &checked[i]) {
                    assert(required_missing_from(toks, avs, i as int));
                    return (true, Some(&checked[i]));
                }
            }
            assert(!required_missing_from(toks, avs, i as int));
            i += 1;
        }
        (false, None)
    }
}

/// Whether a descriptor's short or long alias equals the stripped flag
/// text.
pub open spec fn flag_matches(a: ArgView, s: Seq<char>) -> bool {
    ||| (a.short matches Some(x) && s == x)
    ||| (a.long matches Some(x) && s == x)
}

/// The first descriptor, in declaration order, whose alias matches the
/// stripped flag text.
pub open spec fn find_flag_match(avs: Seq<ArgView>, s: Seq<char>) -> Option<ArgView>
    decreases avs.len(),
{
    if avs.len() == 0 {
        None
    } else if flag_matches(avs[0], s) {
        Some(avs[0])
    } else {
        find_flag_match(avs.subrange(1, avs.len() as int), s)
    }
}

proof fn lemma_find_flag_skip(avs: Seq<ArgView>, s: Seq<char>, i: int)
    requires
        0 <= i <= avs.len(),
        forall|k: int| 0 <= k < i ==> !flag_matches(#[trigger] avs[k], s),
    ensures
        find_flag_match(avs, s) == find_flag_match(avs.subrange(i, avs.len() as int), s),
    decreases i,
{
    if i == 0 {
        assert(avs.subrange(0, avs.len() as int) =~= avs);
    } else {
        let tail = avs.subrange(1, avs.len() as int);
        assert(!flag_matches(avs[0], s));
        assert forall|k: int| 0 <= k < i - 1 implies !flag_matches(#[trigger] tail[k], s) by {
            assert(tail[k] == avs[k + 1]);
        }
        lemma_find_flag_skip(tail, s, i - 1);
        assert(tail.subrange(i - 1, tail.len() as int) =~= avs.subrange(i, avs.len() as int));
    }
}

/// The first matching descriptor among those declaring an alias, by
/// declaration order.
fn find_flag_arg<'a>(args: &'a Vec<Arg>, stripped: &String) -> (r: Option<&'a Arg>)
    ensures
        match r {
            Some(a) => find_flag_match(args.deep_view(), stripped@) == Some(a@),
            None => find_flag_match(args.deep_view(), stripped@) is None,
        },
{
    let ghost avs = args.deep_view();
    let n = args.len();
    proof {
        assert(avs.len() == n);
    }
    let mut i: usize = 0;
    while i < n
        invariant
            0 <= i <= n,
            n == args@.len(),
            avs == args.deep_view(),
            avs.len() == n,
            forall|k: int| 0 <= k < i ==> !flag_matches(#[trigger] avs[k], stripped@),
        decreases n - i,
    {
        proof {
            assert(avs[i as int] == args@[i as int].deep_view());
        }
        let a = &args[i];
        let mut hit = false;
        if let Some(x) = &a.short {
            if *x == *stripped {
                hit = true;
            }
        }
        if !hit {
            if let Some(x) = &a.long {
                if *x == *stripped {
                    hit = true;
                }
            }
        }
        if hit {
            proof {
                lemma_find_flag_skip(avs, stripped@, i as int);
                assert(avs.subrange(i as int, avs.len() as int)[0] == avs[i as int]);
            }
            return Some(a);
        }
        assert(!flag_matches(avs[i as int], stripped@));
        i += 1;
    }
    proof {
        lemma_find_flag_skip(avs, stripped@, n as int);
        assert(avs.subrange(n as int, avs.len() as int).len() == 0);
    }
    None
}

/// The first command, in declaration order, whose name equals the token
/// text.
pub open spec fn find_cmd_match(cvs: Seq<CommandView>, t: Seq<char>) -> Option<CommandView>
    decreases cvs.len(),
{
    if cvs.len() == 0 {
        None
    } else if cvs[0].name == t {
        Some(cvs[0])
    } else {
        find_cmd_match(cvs.subrange(1, cvs.len() as int), t)
    }
}

/// Whether the token text names a known command.
pub open spec fn is_cmd_name(cvs: Seq<CommandView>, t: Seq<char>) -> bool {
    find_cmd_match(cvs, t) is Some
}

proof fn lemma_find_cmd_skip(cvs: Seq<CommandView>, t: Seq<char>, i: int)
    requires
        0 <= i <= cvs.len(),
        forall|k: int| 0 <= k < i ==> (#[trigger] cvs[k]).name != t,
    ensures
        find_cmd_match(cvs, t) == find_cmd_match(cvs.subrange(i, cvs.len() as int), t),
    decreases i,
{
    if i == 0 {
        assert(cvs.subrange(0, cvs.len() as int) =~= cvs);
    } else {
        let tail = cvs.subrange(1, cvs.len() as int);
        assert(cvs[0].name != t);
        assert forall|k: int| 0 <= k < i - 1 implies (#[trigger] tail[k]).name != t by {
            assert(tail[k] == cvs[k + 1]);
        }
        lemma_find_cmd_skip(tail, t, i - 1);
        assert(tail.subrange(i - 1, tail.len() as int) =~= cvs.subrange(i, cvs.len() as int));
    }
}

/// The first command, in declaration order, whose name equals the token.
fn find_cmd<'a>(commands: &'a Vec<Command>, t: &String) -> (r: Option<&'a Command>)
    ensures
        match r {
            Some(c) => find_cmd_match(commands.deep_view(), t@) == Some(c@),
            None => find_cmd_match(commands.deep_view(), t@) is None,
        },
{
    let ghost cvs = commands.deep_view();
    let n = commands.len();
    proof {
        assert(cvs.len() == n);
    }
    let mut i: usize = 0;
    while i < n
        invariant
            0 <= i <= n,
            n == commands@.len(),
            cvs == commands.deep_view(),
            cvs.len() == n,
            forall|k: int| 0 <= k < i ==> (#[trigger] cvs[k]).name != t@,
        decreases n - i,
    {
        proof {
            assert(cvs[i as int] == commands@[i as int].deep_view());
        }
        if commands[i].name == *t {
            proof {
                lemma_find_cmd_skip(cvs, t@, i as int);
                assert(cvs.subrange(i as int, cvs.len() as int)[0] == cvs[i as int]);
            }
            return Some(&commands[i]);
        }
        i += 1;
    }
    proof {
        lemma_find_cmd_skip(cvs, t@, n as int);
        assert(cvs.subrange(n as int, cvs.len() as int).len() == 0);
    }
    None
}

/// Whether the token text names a known command.
fn is_cmd_token_exec(commands: &Vec<Command>, t: &String) -> (r: bool)
    ensures
        r == is_cmd_name(commands.deep_view(), t@),
{
    match find_cmd(commands, t) {
        Some(_) => true,
        None => false,
    }
}

/// The value-argument pass, from descriptor index `j` with the cursor at
/// `c`, over the tokens before `end`: each pure positional descriptor, in
/// declaration order, consumes the next unconsumed token as its value. A
/// token that merely echoes the descriptor's name marks it instead, and
/// the token after the echo becomes the value. A descriptor with no
/// remaining token is skipped. Yields the accumulated captures and the
/// final cursor.
pub open spec fn value_pass_from(
    avs: Seq<ArgView>,
    toks: Seq<Seq<char>>,
    end: int,
    j: int,
    c: int,
    m: Map<Seq<char>, OutputView>,
) -> (Map<Seq<char>, OutputView>, int)
    decreases avs.len() - j,
{
    if j < 0 || j >= avs.len() {
        (m, c)
    } else {
        let a = avs[j];
        if !a.is_positional() {
            value_pass_from(avs, toks, end, j + 1, c, m)
        } else if c < 0 || c >= end || end > toks.len() {
            value_pass_from(avs, toks, end, j + 1, c, m)
        } else if toks[c] == a.name && c + 1 < end {
            value_pass_from(
                avs,
                toks,
                end,
                j + 1,
                c + 2,
                m.insert(a.name, OutputView { arg: a.name, value: Some(toks[c + 1]) }),
            )
        } else {
            value_pass_from(
                avs,
                toks,
                end,
                j + 1,
                c + 1,
                m.insert(a.name, OutputView { arg: a.name, value: Some(toks[c]) }),
            )
        }
    }
}

/// The flag pass, from token index `i` up to `end`: each flag-like token
/// is matched, by its stripped text, against the descriptors that declare
/// an alias; the first match in declaration order wins. A repeated flag
/// without `MULTIPLE` is dropped; a match with `HAS_VALUE` consumes the
/// next token as its value. Non-flag tokens are passed over.
pub open spec fn flag_pass_from(
    toks: Seq<Seq<char>>,
    avs: Seq<ArgView>,
    i: int,
    end: int,
    m: Map<Seq<char>, Seq<OutputView>>,
) -> Map<Seq<char>, Seq<OutputView>>
    decreases end - i,
{
    if i < 0 || i >= end || end > toks.len() {
        m
    } else {
        let t = toks[i];
        if !spec_is_flag(t) {
            flag_pass_from(toks, avs, i + 1, end, m)
        } else {
            match find_flag_match(avs, spec_strip_flag(t)) {
                None => flag_pass_from(toks, avs, i + 1, end, m),
                Some(a) => {
                    if !a.settings.multiple && m.contains_key(a.name) {
                        flag_pass_from(toks, avs, i + 1, end, m)
                    } else if a.settings.has_value && i + 1 < end {
                        flag_pass_from(
                            toks,
                            avs,
                            i + 2,
                            end,
                            push_entry(
                                m,
                                a.name,
                                OutputView { arg: a.name, value: Some(toks[i + 1]) },
                            ),
                        )
                    } else {
                        flag_pass_from(
                            toks,
                            avs,
                            i + 1,
                            end,
                            push_entry(m, a.name, OutputView { arg: a.name, value: None }),
                        )
                    }
                },
            }
        }
    }
}

/// The index of the next token at or after `i` that names a known
/// command, or the stream end.
pub open spec fn next_cmd_index(cvs: Seq<CommandView>, toks: Seq<Seq<char>>, i: int) -> int
    decreases toks.len() - i,
{
    if i < 0 || i >= toks.len() {
        toks.len() as int
    } else if is_cmd_name(cvs, toks[i]) {
        i
    } else {
        next_cmd_index(cvs, toks, i + 1)
    }
}

proof fn lemma_next_cmd_index_at(cvs: Seq<CommandView>, toks: Seq<Seq<char>>, from: int, pos: int)
    requires
        0 <= from <= pos <= toks.len(),
        forall|k: int| from <= k < pos ==> !is_cmd_name(cvs, #[trigger] toks[k]),
        pos < toks.len() ==> is_cmd_name(cvs, toks[pos]),
    ensures
        next_cmd_index(cvs, toks, from) == pos,
    decreases pos - from,
{
    if from < pos {
        lemma_next_cmd_index_at(cvs, toks, from + 1, pos);
    }
}

/// The outcome recorded for the command `cv` found at token index `i`:
/// its span runs to the next command token; within it the command's own
/// positional descriptors consume values first and its flag descriptors
/// are matched over what remains. Where no further command token exists,
/// the span covers the stream when something was captured, and only the
/// command token itself otherwise.
pub open spec fn cmd_outcome(
    cvs: Seq<CommandView>,
    cv: CommandView,
    toks: Seq<Seq<char>>,
    i: int,
) -> CommandsView {
    let limit = next_cmd_index(cvs, toks, i + 1);
    let vp = value_pass_from(cv.args, toks, limit, 0, i + 1, Map::empty());
    let fm = flag_pass_from(toks, cv.args, vp.1, limit, Map::empty());
    let consumed = vp.1 > i + 1 || !(fm =~= Map::empty());
    let span_end = if limit < toks.len() {
        limit
    } else if consumed {
        toks.len() as int
    } else {
        i + 1
    };
    CommandsView {
        command: cv.name,
        range_start: i,
        range_end: span_end,
        present_args: vp.0,
        present_flags: fm,
    }
}

/// The command pass, from token index `i`: every token naming a known
/// command yields an outcome, keyed by command name; a later outcome for
/// the same name overwrites the earlier one. Unknown tokens are passed
/// over.
pub open spec fn cmd_pass_from(
    cvs: Seq<CommandView>,
    toks: Seq<Seq<char>>,
    i: int,
    m: Map<Seq<char>, CommandsView>,
) -> Map<Seq<char>, CommandsView>
    decreases toks.len() - i,
{
    if i < 0 || i >= toks.len() {
        m
    } else {
        match find_cmd_match(cvs, toks[i]) {
            None => cmd_pass_from(cvs, toks, i + 1, m),
            Some(cv) => cmd_pass_from(
                cvs,
                toks,
                i + 1,
                m.insert(cv.name, cmd_outcome(cvs, cv, toks, i)),
            ),
        }
    }
}

/// Runs the value-argument pass over `toks[start..end]` for the given
/// descriptors; yields the captures and the final cursor.
fn run_value_pass(toks: &Vec<String>, start: usize, end: usize, args: &Vec<Arg>) -> (r: (
    ArgResults,
    usize,
))
    requires
        start <= end,
        end as int <= toks@.len(),
    ensures
        ({
            let vp = value_pass_from(
                args.deep_view(),
                toks.deep_view(),
                end as int,
                0,
                start as int,
                Map::empty(),
            );
            &&& r.0@ == vp.0
            &&& r.1 as int == vp.1
        }),
        start <= r.1 <= end,
{
    let ghost avs = args.deep_view();
    let ghost tv = toks.deep_view();
    let mut results = ArgResults::new();
    let mut c = start;
    let n = args.len();
    proof {
        assert(avs.len() == n);
        assert(tv.len() == toks@.len());
        assert(results@ =~= Map::empty());
    }
    let mut j: usize = 0;
    while j < n
        invariant
            0 <= j <= n,
            start <= c <= end,
            end as int <= tv.len(),
            n == args@.len(),
            avs == args.deep_view(),
            avs.len() == n,
            tv == toks.deep_view(),
            tv.len() == toks@.len(),
            value_pass_from(avs, tv, end as int, 0, start as int, Map::empty())
                == value_pass_from(avs, tv, end as int, j as int, c as int, results@),
        decreases n - j,
    {
        let ghost m0 = results@;
        let ghost c0 = c as int;
        proof {
            assert(avs[j as int] == args@[j as int].deep_view());
        }
        let a = &args[j];
        if a.short.is_none() && a.long.is_none() {
            assert(avs[j as int].is_positional());
            if c < end {
                proof {
                    assert(tv[c as int] == toks@[c as int]@);
                    if c + 1 < end {
                        assert(tv[c as int + 1] == toks@[c as int + 1]@);
                    }
                }
                if c + 1 < end && toks[c] == a.name {
                    let o = Output { arg: a.name.clone(), value: Some(toks[c + 1].clone()) };
                    assert(o@ == (OutputView {
                        arg: avs[j as int].name,
                        value: Some(tv[c as int + 1]),
                    }));
                    results.insert(o);
                    c = c + 2;
                } else {
                    let o = Output { arg: a.name.clone(), value: Some(toks[c].clone()) };
                    assert(o@ == (OutputView {
                        arg: avs[j as int].name,
                        value: Some(tv[c as int]),
                    }));
                    results.insert(o);
                    c = c + 1;
                }
            }
        } else {
            assert(!avs[j as int].is_positional());
        }
        proof {
            assert(value_pass_from(avs, tv, end as int, j as int, c0, m0) == value_pass_from(
                avs,
                tv,
                end as int,
                j as int + 1,
                c as int,
                results@,
            ));
        }
        j += 1;
    }
    (results, c)
}

/// Runs the flag pass over `toks[start..end]` for the given descriptors;
/// yields the multi-valued captures.
fn run_flag_pass(toks: &Vec<String>, start: usize, end: usize, args: &Vec<Arg>) -> (r:
    multimap::MultiMap<String, Output>)
    requires
        start <= end,
        end as int <= toks@.len(),
    ensures
        flag_entries(r) == flag_pass_from(
            toks.deep_view(),
            args.deep_view(),
            start as int,
            end as int,
            Map::empty(),
        ),
{
    let ghost avs = args.deep_view();
    let ghost tv = toks.deep_view();
    let mut results = mm_new();
    proof {
        assert(flag_entries(results) =~= Map::empty());
    }
    let mut i = start;
    while i < end
        invariant
            start <= i <= end,
            end as int <= tv.len(),
            avs == args.deep_view(),
            tv == toks.deep_view(),
            tv.len() == toks@.len(),
            flag_pass_from(tv, avs, start as int, end as int, Map::empty()) == flag_pass_from(
                tv,
                avs,
                i as int,
                end as int,
                flag_entries(results),
            ),
        decreases end - i,
    {
        let ghost m0 = flag_entries(results);
        let ghost i0 = i as int;
        proof {
            assert(tv[i as int] == toks@[i as int]@);
        }
        let (is_flag, stripped_opt) = classify(&toks[i]);
        if is_flag {
            let stripped = stripped_opt.unwrap();
            match find_flag_arg(args, &stripped) {
                Some(a) => {
                    if !a.settings.multiple && mm_contains_key(&results, &a.name) {
                        i += 1;
                    } else if a.settings.has_value && i + 1 < end {
                        proof {
                            assert(tv[i as int + 1] == toks@[i as int + 1]@);
                        }
                        let o = Output { arg: a.name.clone(), value: Some(toks[i + 1].clone()) };
                        assert(o@ == (OutputView { arg: a@.name, value: Some(tv[i as int + 1]) }));
                        mm_insert(&mut results, a.name.clone(), o);
                        i += 2;
                    } else {
                        let o = Output { arg: a.name.clone(), value: None };
                        assert(o@ == (OutputView { arg: a@.name, value: None }));
                        mm_insert(&mut results, a.name.clone(), o);
                        i += 1;
                    }
                },
                None => {
                    i += 1;
                },
            }
        } else {
            i += 1;
        }
        proof {
            assert(flag_pass_from(tv, avs, i0, end as int, m0) == flag_pass_from(
                tv,
                avs,
                i as int,
                end as int,
                flag_entries(results),
            ));
        }
    }
    results
}

impl Parser {
    /// The value-argument pass over the remaining raw tokens, for the
    /// given descriptors (the parser's own set when `args` is absent).
    /// Consumes exactly the tokens the pass captures.
    pub fn parse_args(&mut self, args: Option<&Vec<Arg>>) -> (r: ArgResults)
        ensures
            ({
                let avs = match args {
                    Some(a) => a.deep_view(),
                    None => old(self).args.deep_view(),
                };
                let toks = old(self).raw_args@.tokens;
                let vp = value_pass_from(
                    avs,
                    toks,
                    toks.len() as int,
                    0,
                    old(self).raw_args@.cursor,
                    Map::empty(),
                );
                &&& r@ == vp.0
                &&& final(self).raw_args@.tokens == toks
                &&& final(self).raw_args@.cursor == vp.1
            }),
            final(self).args == old(self).args,
            final(self).commands == old(self).commands,
            final(self).settings == old(self).settings,
    {
        let chosen = match args {
            Some(a) => a,
            None => &self.args,
        };
        let start = self.raw_args.pos();
        let toks = self.raw_args.toks();
        let end = toks.len();
        proof {
            assert(toks.deep_view().len() == toks@.len());
        }
        let (results, c2) = run_value_pass(toks, start, end, chosen);
        self.raw_args.set_pos(c2);
        results
    }

    /// The flag pass over the remaining raw tokens, for the given
    /// descriptors (the parser's own set when `args` is absent). Consumes
    /// the rest of the stream.
    pub fn parse_flags(&mut self, args: Option<&Vec<Arg>>) -> (r: multimap::MultiMap<
        String,
        Output,
    >)
        ensures
            ({
                let avs = match args {
                    Some(a) => a.deep_view(),
                    None => old(self).args.deep_view(),
                };
                let toks = old(self).raw_args@.tokens;
                &&& flag_entries(r) == flag_pass_from(
                    toks,
                    avs,
                    old(self).raw_args@.cursor,
                    toks.len() as int,
                    Map::empty(),
                )
                &&& final(self).raw_args@.tokens == toks
                &&& final(self).raw_args@.cursor == toks.len()
            }),
            final(self).args == old(self).args,
            final(self).commands == old(self).commands,
            final(self).settings == old(self).settings,
    {
        let chosen = match args {
            Some(a) => a,
            None => &self.args,
        };
        let start = self.raw_args.pos();
        let toks = self.raw_args.toks();
        let end = toks.len();
        proof {
            assert(toks.deep_view().len() == toks@.len());
        }
        let results = run_flag_pass(toks, start, end, chosen);
        self.raw_args.set_pos(end);
        results
    }
}

/// The index of the next token at or after `from` that names a known
/// command, or the stream end.
fn scan_limit(commands: &Vec<Command>, toks: &Vec<String>, from: usize) -> (r: usize)
    requires
        from as int <= toks@.len(),
    ensures
        r as int == next_cmd_index(commands.deep_view(), toks.deep_view(), from as int),
        from <= r,
        r as int <= toks@.len(),
{
    let ghost cvs = commands.deep_view();
    let ghost tv = toks.deep_view();
    let n = toks.len();
    proof {
        assert(tv.len() == toks@.len());
    }
    let mut limit = from;
    while limit < n && !is_cmd_token_exec(commands, &toks[limit])
        invariant
            from <= limit <= n,
            n == toks@.len(),
            cvs == commands.deep_view(),
            tv == toks.deep_view(),
            tv.len() == n,
            forall|k: int| from <= k < limit ==> !is_cmd_name(cvs, #[trigger] tv[k]),
        decreases n - limit,
    {
        proof {
            assert(tv[limit as int] == toks@[limit as int]@);
        }
        limit += 1;
    }
    proof {
        if limit < n {
            assert(tv[limit as int] == toks@[limit as int]@);
        }
        lemma_next_cmd_index_at(cvs, tv, from as int, limit as int);
    }
    limit
}

impl Parser {
    /// The command pass: walks the remaining raw tokens in order; every
    /// token naming a known command yields an outcome under that name,
    /// holding the token span it occupies and, within that span, the
    /// captures of the command's own positional and flag descriptors.
    /// Consumes the whole stream.
    pub fn parse_cmds(&mut self) -> (r: CmdResults)
        ensures
            r@ == cmd_pass_from(
                old(self).commands.deep_view(),
                old(self).raw_args@.tokens,
                old(self).raw_args@.cursor,
                Map::empty(),
            ),
            final(self).raw_args@.tokens == old(self).raw_args@.tokens,
            final(self).raw_args@.cursor == old(self).raw_args@.tokens.len(),
            final(self).args == old(self).args,
            final(self).commands == old(self).commands,
            final(self).settings == old(self).settings,
    {
        let ghost cvs = self.commands.deep_view();
        let ghost tv = self.raw_args@.tokens;
        let mut results = CmdResults::new();
        proof {
            assert(results@ =~= Map::empty());
        }
        let start = self.raw_args.pos();
        let n = self.raw_args.toks().len();
        proof {
            assert(tv.len() == n);
        }
        let mut i = start;
        while i < n
            invariant
                start <= i <= n,
                *self == *old(self),
                start as int == old(self).raw_args@.cursor,
                cvs == self.commands.deep_view(),
                tv == self.raw_args@.tokens,
                tv.len() == n,
                cmd_pass_from(cvs, tv, start as int, Map::empty()) == cmd_pass_from(
                    cvs,
                    tv,
                    i as int,
                    results@,
                ),
            decreases n - i,
        {
            let ghost m0 = results@;
            let ghost i0 = i as int;
            let toks = self.raw_args.toks();
            proof {
                assert(toks@.len() == tv.len());
                assert(tv[i as int] == toks@[i as int]@);
            }
            match find_cmd(&self.commands, &toks[i]) {
                Some(cmd) => {
                    let limit = scan_limit(&self.commands, toks, i + 1);
                    let (pargs, c2) = run_value_pass(toks, i + 1, limit, &cmd.args);
                    let pflags = run_flag_pass(toks, c2, limit, &cmd.args);
                    let consumed = c2 > i + 1 || !mm_is_empty(&pflags);
                    let span_end = if limit < n {
                        limit
                    } else if consumed {
                        n
                    } else {
                        i + 1
                    };
                    let entry = Commands {
                        command: cmd.name.clone(),
                        range_start: i,
                        range_end: span_end,
                        present_args: pargs,
                        present_flags: pflags,
                    };
                    let ghost ev = entry@;
                    proof {
                        assert(cmd.args.deep_view() == cmd@.args);
                        assert(ev == cmd_outcome(cvs, cmd@, tv, i0));
                    }
                    results.insert(entry);
                    proof {
                        assert(cmd_pass_from(cvs, tv, i0, m0) == cmd_pass_from(
                            cvs,
                            tv,
                            i0 + 1,
                            m0.insert(cmd@.name, cmd_outcome(cvs, cmd@, tv, i0)),
                        ));
                        assert(results@ == m0.insert(cmd@.name, cmd_outcome(cvs, cmd@, tv, i0)));
                    }
                },
                None => {
                    proof {
                        assert(cmd_pass_from(cvs, tv, i0, m0) == cmd_pass_from(
                            cvs,
                            tv,
                            i0 + 1,
                            m0,
                        ));
                    }
                },
            }
            i += 1;
        }
        proof {
            assert(cmd_pass_from(cvs, tv, n as int, results@) == results@);
        }
        self.raw_args.set_pos(n);
        results
    }
}

/// Law: a descriptor list in which no two descriptors share a name, a
/// short alias, or a long alias gets a clean report from
/// `check_arg_names`: no collision found and no pair returned.
pub proof fn lemma_distinct_args_clean(
    avs: Seq<ArgView>,
    hit: bool,
    first: Option<ArgView>,
    second: Option<ArgView>,
)
    requires
        arg_names_report(avs, hit, first, second),
        forall|i: int, j: int|
            0 <= i < avs.len() && 0 <= j < avs.len() && i != j ==> (#[trigger] avs[i]).name != (
            #[trigger] avs[j]).name,
        forall|i: int, j: int|
            0 <= i < avs.len() && 0 <= j < avs.len() && i != j ==> !((#[trigger] avs[i]).short
                is Some && (#[trigger] avs[j]).short == avs[i].short),
        forall|i: int, j: int|
            0 <= i < avs.len() && 0 <= j < avs.len() && i != j ==> !((#[trigger] avs[i]).long
                is Some && (#[trigger] avs[j]).long == avs[i].long),
    ensures
        !hit,
        first is None,
        second is None,
{
    assert forall|i: int| 0 <= i < avs.len() implies !arg_blocking_from(avs, i) by {
        if arg_blocking_from(avs, i) {
            let j = choose|j: int| i < j < avs.len() && args_collide(avs[i], #[trigger] avs[j]);
            assert(avs[i].name != avs[j].name);
            if avs[i].short matches Some(x) && x.len() > 0 && avs[j].short == Some(x) {
                assert(avs[j].short == avs[i].short);
                assert(false);
            }
            if avs[i].long matches Some(x) && x.len() > 0 && avs[j].long == Some(x) {
                assert(avs[j].long == avs[i].long);
                assert(false);
            }
            assert(!args_collide(avs[i], avs[j]));
        }
    }
}

/// Law: a descriptor list holding exactly one duplicate pair, by full
/// value equality, and carrying `MULTIPLE` nowhere, is reported by
/// `check_uniqueness` as a hit on precisely the earlier item of that
/// pair.
pub proof fn lemma_single_duplicate_reported(
    s: Seq<Arg>,
    i0: int,
    j0: int,
    hit: bool,
    item: Option<Arg>,
)
    requires
        uniqueness_report(s, hit, item),
        0 <= i0 < j0 < s.len(),
        s[i0]@ == s[j0]@,
        forall|i: int, j: int|
            0 <= i < j < s.len() && (#[trigger] s[i])@ == (#[trigger] s[j])@ ==> i == i0 && j
                == j0,
        forall|i: int| 0 <= i < s.len() ==> !(#[trigger] s[i])@.settings.multiple,
    ensures
        hit,
        item matches Some(a) && a@ == s[i0]@,
{
    assert(s[i0].eq_spec(&s[j0]));
    assert(dup_at(s, i0));
    assert(hit);
    let i = choose|i: int|
        {
            &&& 0 <= i < s.len()
            &&& #[trigger] dup_at(s, i)
            &&& forall|i2: int| 0 <= i2 < i ==> !#[trigger] dup_at(s, i2)
            &&& item == Some(s[i])
        };
    assert(i <= i0);
    let k = choose|k: int| 0 <= k < s.len() && k != i && s[i].eq_spec(#[trigger] &s[k]);
    assert(s[i]@ == s[k]@);
    if i != i0 {
        if k < i {
            assert(s[k]@ == s[i]@);
            assert(k == i0 && i == j0);
            assert(false);
        } else {
            assert(i == i0 && k == j0);
            assert(false);
        }
    }
    assert(item == Some(s[i0]));
}

} // verus!
