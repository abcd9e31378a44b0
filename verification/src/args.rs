//! The descriptor model for flags and positional arguments, and the value
//! record the matching engine produces for one of them.

use vstd::prelude::*;

verus! {

/// The capability flags a descriptor may carry: `MULTIPLE` lets a flag be
/// captured more than once, `REQUIRED` asks the validator to demand it,
/// `HAS_VALUE` makes a matched flag consume the next raw token as its value.
#[derive(Clone, Copy, Debug, PartialEq, Eq, Structural)]
pub struct ArgSettings {
    pub multiple: bool,
    pub required: bool,
    pub has_value: bool,
}

impl ArgSettings {
    /// The empty capability set.
    pub open spec fn spec_empty() -> ArgSettings {
        ArgSettings { multiple: false, required: false, has_value: false }
    }

    /// The set holding every capability of `self` and every one of `other`.
    pub open spec fn spec_union(self, other: ArgSettings) -> ArgSettings {
        ArgSettings {
            multiple: self.multiple || other.multiple,
            required: self.required || other.required,
            has_value: self.has_value || other.has_value,
        }
    }

    /// Whether every capability of `other` is enabled in `self`.
    pub open spec fn spec_contains(self, other: ArgSettings) -> bool {
        &&& other.multiple ==> self.multiple
        &&& other.required ==> self.required
        &&& other.has_value ==> self.has_value
    }

    /// A settings value with no capability enabled.
    pub fn empty() -> (r: ArgSettings)
        ensures
            r == ArgSettings::spec_empty(),
    {
        ArgSettings { multiple: false, required: false, has_value: false }
    }

    /// A settings value with only `MULTIPLE` enabled.
    pub fn multiple() -> (r: ArgSettings)
        ensures
            r == (ArgSettings { multiple: true, required: false, has_value: false }),
    {
        ArgSettings { multiple: true, required: false, has_value: false }
    }

    /// A settings value with only `REQUIRED` enabled.
    pub fn required() -> (r: ArgSettings)
        ensures
            r == (ArgSettings { multiple: false, required: true, has_value: false }),
    {
        ArgSettings { multiple: false, required: true, has_value: false }
    }

    /// A settings value with only `HAS_VALUE` enabled.
    pub fn has_value() -> (r: ArgSettings)
        ensures
            r == (ArgSettings { multiple: false, required: false, has_value: true }),
    {
        ArgSettings { multiple: false, required: false, has_value: true }
    }

    /// Enables in `self` every capability of `other`.
    pub fn union(self, other: ArgSettings) -> (r: ArgSettings)
        ensures
            r == self.spec_union(other),
    {
        ArgSettings {
            multiple: self.multiple || other.multiple,
            required: self.required || other.required,
            has_value: self.has_value || other.has_value,
        }
    }

    /// Whether every capability of `other` is enabled in `self`.
    pub fn contains(self, other: ArgSettings) -> (r: bool)
        ensures
            r == self.spec_contains(other),
    {
        (!other.multiple || self.multiple) && (!other.required || self.required)
            && (!other.has_value || self.has_value)
    }
}

/// The mathematical value of an [`Arg`]: every text field as a sequence of
/// characters.
pub struct ArgView {
    pub name: Seq<char>,
    pub short: Option<Seq<char>>,
    pub long: Option<Seq<char>>,
    pub help: Option<Seq<char>>,
    pub settings: ArgSettings,
}

impl ArgView {
    /// The view a fresh descriptor starts from: only the name is populated.
    pub open spec fn init(name: Seq<char>) -> ArgView {
        ArgView {
            name,
            short: None,
            long: None,
            help: None,
            settings: ArgSettings::spec_empty(),
        }
    }

    /// `self` with the short alias replaced.
    pub open spec fn with_short(self, short: Seq<char>) -> ArgView {
        ArgView { short: Some(short), ..self }
    }

    /// `self` with the long alias replaced.
    pub open spec fn with_long(self, long: Seq<char>) -> ArgView {
        ArgView { long: Some(long), ..self }
    }

    /// `self` with the help text replaced.
    pub open spec fn with_help(self, help: Seq<char>) -> ArgView {
        ArgView { help: Some(help), ..self }
    }

    /// `self` with the capabilities of `settings` enabled in addition.
    pub open spec fn with_setting(self, settings: ArgSettings) -> ArgView {
        ArgView { settings: self.settings.spec_union(settings), ..self }
    }

    /// Whether the descriptor is a pure positional: it declares no alias.
    pub open spec fn is_positional(self) -> bool {
        self.short is None && self.long is None
    }
}

/// One recognized flag or positional argument: a mandatory identifying
/// `name`, optional `short` and `long` aliases, optional `help` text, and
/// the capability set. No validation happens at construction time; the
/// validator methods of [`crate::parser::Parser`] are a separate, explicit
/// step.
#[derive(Clone, Debug)]
pub struct Arg {
    pub name: String,
    pub short: Option<String>,
    pub long: Option<String>,
    pub help: Option<String>,
    pub settings: ArgSettings,
}

impl View for Arg {
    type V = ArgView;

    open spec fn view(&self) -> ArgView {
        ArgView {
            name: self.name@,
            short: self.short.deep_view(),
            long: self.long.deep_view(),
            help: self.help.deep_view(),
            settings: self.settings,
        }
    }
}

impl DeepView for Arg {
    type V = ArgView;

    open spec fn deep_view(&self) -> ArgView {
        self.view()
    }
}

/// Whether two optional strings hold the same text (or are both absent).
pub fn opt_str_eq(a: &Option<String>, b: &Option<String>) -> (r: bool)
    ensures
        r == (a.deep_view() == b.deep_view()),
{
    match (a, b) {
        (Option::None, Option::None) => true,
        (Option::Some(x), Option::Some(y)) => *x == *y,
        _ => false,
    }
}

impl PartialEq for Arg {
    fn eq(&self, other: &Arg) -> (r: bool) {
        self.name == other.name && opt_str_eq(&self.short, &other.short)
            && opt_str_eq(&self.long, &other.long) && opt_str_eq(&self.help, &other.help)
            && self.settings == other.settings
    }
}

impl Eq for Arg {

}

impl vstd::std_specs::cmp::PartialEqSpecImpl for Arg {
    open spec fn obeys_eq_spec() -> bool {
        true
    }

    open spec fn eq_spec(&self, other: &Arg) -> bool {
        self@ == other@
    }
}

impl Arg {
    /// A fresh descriptor: no alias, no help, empty settings.
    pub fn new(name: String) -> (r: Arg)
        ensures
            r@ == ArgView::init(name@),
    {
        Arg { name, short: None, long: None, help: None, settings: ArgSettings::empty() }
    }

    /// Replaces the short alias; calling it twice keeps the later one.
    pub fn short(self, short: String) -> (r: Arg)
        ensures
            r@ == self@.with_short(short@),
    {
        Arg { short: Some(short), ..self }
    }

    /// Replaces the long alias; calling it twice keeps the later one.
    pub fn long(self, long: String) -> (r: Arg)
        ensures
            r@ == self@.with_long(long@),
    {
        Arg { long: Some(long), ..self }
    }

    /// Replaces the help text; calling it twice keeps the later one.
    pub fn help(self, help: String) -> (r: Arg)
        ensures
            r@ == self@.with_help(help@),
    {
        Arg { help: Some(help), ..self }
    }

    /// Enables the capabilities of `setting` in addition to those already
    /// enabled.
    pub fn set(self, setting: ArgSettings) -> (r: Arg)
        ensures
            r@ == self@.with_setting(setting),
    {
        let settings = self.settings.union(setting);
        Arg { settings, ..self }
    }

    /// The builder spelling of [`Arg::set`].
    pub fn setting(self, setting: ArgSettings) -> (r: Arg)
        ensures
            r@ == self@.with_setting(setting),
    {
        self.set(setting)
    }
}

/// Law: a descriptor built by `new(name).long(l).short(s).help(h)` reads back
/// exactly those four fields, and nothing else is populated.
pub proof fn lemma_builder_round_trip(name: Seq<char>, l: Seq<char>, s: Seq<char>, h: Seq<char>)
    ensures
        ({
            let a = ArgView::init(name).with_long(l).with_short(s).with_help(h);
            &&& a.name == name
            &&& a.long == Some(l)
            &&& a.short == Some(s)
            &&& a.help == Some(h)
            &&& a.settings == ArgSettings::spec_empty()
        }),
{
}

/// The captured outcome for one argument: the descriptor name it was
/// recorded under and the raw token captured as its value, if any.
#[derive(Debug)]
pub struct Output {
    pub arg: String,
    pub value: Option<String>,
}

/// The mathematical value of an [`Output`].
pub struct OutputView {
    pub arg: Seq<char>,
    pub value: Option<Seq<char>>,
}

impl View for Output {
    type V = OutputView;

    open spec fn view(&self) -> OutputView {
        OutputView { arg: self.arg@, value: self.value.deep_view() }
    }
}

impl DeepView for Output {
    type V = OutputView;

    open spec fn deep_view(&self) -> OutputView {
        self.view()
    }
}

impl PartialEq for Output {
    fn eq(&self, other: &Output) -> (r: bool) {
        self.arg == other.arg && opt_str_eq(&self.value, &other.value)
    }
}

impl Eq for Output {

}

impl vstd::std_specs::cmp::PartialEqSpecImpl for Output {
    open spec fn obeys_eq_spec() -> bool {
        true
    }

    open spec fn eq_spec(&self, other: &Output) -> bool {
        self@ == other@
    }
}

/// Whether no two captured outputs in `s` share an argument name.
pub open spec fn unique_arg_names(s: Seq<OutputView>) -> bool {
    forall|i: int, j: int|
        0 <= i < j < s.len() ==> #[trigger] s[i].arg != #[trigger] s[j].arg
}

/// The mapping an ordered capture list stands for: later captures of the
/// same name overwrite earlier ones.
pub open spec fn outputs_to_map(s: Seq<OutputView>) -> Map<Seq<char>, OutputView>
    decreases s.len(),
{
    if s.len() == 0 {
        Map::empty()
    } else {
        outputs_to_map(s.drop_last()).insert(s.last().arg, s.last())
    }
}

proof fn lemma_unique_drop_last(s: Seq<OutputView>)
    requires
        unique_arg_names(s),
        s.len() > 0,
    ensures
        unique_arg_names(s.drop_last()),
{
    assert forall|i: int, j: int|
        0 <= i < j < s.drop_last().len() implies #[trigger] s.drop_last()[i].arg != #[trigger] s.drop_last()[j].arg by {
        assert(s.drop_last()[i] == s[i]);
        assert(s.drop_last()[j] == s[j]);
    }
}

proof fn lemma_outputs_to_map_update(s: Seq<OutputView>, i: int, o: OutputView)
    requires
        unique_arg_names(s),
        0 <= i < s.len(),
        s[i].arg == o.arg,
    ensures
        outputs_to_map(s.update(i, o)) == outputs_to_map(s).insert(o.arg, o),
    decreases s.len(),
{
    let t = s.update(i, o);
    lemma_unique_drop_last(s);
    if i == s.len() - 1 {
        assert(t.drop_last() =~= s.drop_last());
        assert(t.last() == o);
        assert(outputs_to_map(s.drop_last()).insert(s.last().arg, s.last()).insert(o.arg, o)
            =~= outputs_to_map(s.drop_last()).insert(o.arg, o));
    } else {
        assert(t.drop_last() =~= s.drop_last().update(i, o));
        lemma_outputs_to_map_update(s.drop_last(), i, o);
        assert(t.last() == s.last());
        assert(s.last().arg != o.arg);
        assert(outputs_to_map(s.drop_last()).insert(o.arg, o).insert(s.last().arg, s.last())
            =~= outputs_to_map(s.drop_last()).insert(s.last().arg, s.last()).insert(o.arg, o));
    }
}

proof fn lemma_outputs_to_map_found(s: Seq<OutputView>, i: int)
    requires
        unique_arg_names(s),
        0 <= i < s.len(),
    ensures
        outputs_to_map(s).contains_key(s[i].arg),
        outputs_to_map(s)[s[i].arg] == s[i],
    decreases s.len(),
{
    lemma_unique_drop_last(s);
    if i < s.len() - 1 {
        lemma_outputs_to_map_found(s.drop_last(), i);
        assert(s.drop_last()[i] == s[i]);
        assert(s.last().arg != s[i].arg);
    }
}

proof fn lemma_outputs_to_map_absent(s: Seq<OutputView>, k: Seq<char>)
    requires
        forall|i: int| 0 <= i < s.len() ==> (#[trigger] s[i].arg) != k,
    ensures
        !outputs_to_map(s).contains_key(k),
    decreases s.len(),
{
    if s.len() > 0 {
        lemma_outputs_to_map_absent(s.drop_last(), k);
    }
}

/// The captures of the value-argument pass, keyed by descriptor name. The
/// library's own replacement for a hash map from name to [`Output`]: a
/// later capture of the same name overwrites the earlier one.
#[derive(Debug)]
pub struct ArgResults {
    entries: Vec<Output>,
}

impl View for ArgResults {
    type V = Map<Seq<char>, OutputView>;

    closed spec fn view(&self) -> Map<Seq<char>, OutputView> {
        outputs_to_map(self.entries.deep_view())
    }
}

impl ArgResults {
    #[verifier::type_invariant]
    spec fn inv(self) -> bool {
        unique_arg_names(self.entries.deep_view())
    }

    /// An empty capture set.
    pub fn new() -> (r: ArgResults)
        ensures
            r@ =~= Map::empty(),
    {
        ArgResults { entries: Vec::new() }
    }

    /// Records one capture under its argument name, overwriting any
    /// earlier capture of the same name.
    pub fn insert(&mut self, o: Output)
        ensures
            final(self)@ == old(self)@.insert(o.arg@, o@),
    {
        proof {
            use_type_invariant(&*self);
        }
        let mut entries: Vec<Output> = Vec::new();
        std::mem::swap(&mut entries, &mut self.entries);
        let ghost s = entries.deep_view();
        proof {
            assert(old(self).entries.deep_view() =~= s);
        }
        let n = entries.len();
        let mut i: usize = 0;
        while i < n
            invariant
                0 <= i <= n,
                n == entries@.len(),
                s == entries.deep_view(),
                old(self).entries.deep_view() == s,
                unique_arg_names(s),
                forall|k: int| 0 <= k < i ==> (#[trigger] s[k].arg) != o.arg@,
            decreases n - i,
        {
            if entries[i].arg == o.arg {
                assert(s[i as int].arg == o.arg@);
                let ghost ov = o@;
                entries.set(i, o);
                proof {
                    let t = entries.deep_view();
                    assert(t =~= s.update(i as int, ov));
                    lemma_outputs_to_map_update(s, i as int, ov);
                    assert(outputs_to_map(t) == outputs_to_map(s).insert(ov.arg, ov));
                    assert forall|a: int, b: int| 0 <= a < b < t.len() implies (#[trigger] t[a].arg)
                        != (#[trigger] t[b].arg) by {
                        assert(t[a].arg == s[a].arg);
                        assert(t[b].arg == s[b].arg);
                    }
                    assert(old(self).entries.deep_view() == s);
                }
                self.entries = entries;
                return ;
            }
            i += 1;
        }
        let ghost ov = o@;
        entries.push(o);
        proof {
            let t = entries.deep_view();
            assert(t.drop_last() =~= s);
            assert(t.last() == ov);
            assert(outputs_to_map(t) == outputs_to_map(s).insert(ov.arg, ov));
            assert forall|a: int, b: int| 0 <= a < b < t.len() implies (#[trigger] t[a].arg)
                != (#[trigger] t[b].arg) by {
                assert(t[a] == s[a]);
                if b < t.len() - 1 {
                    assert(t[b] == s[b]);
                } else {
                    assert(t[b] == ov);
                }
            }
            assert(old(self).entries.deep_view() == s);
        }
        self.entries = entries;
    }

    /// The capture recorded under `name`, if any.
    pub fn get(&self, name: &String) -> (r: Option<&Output>)
        ensures
            match r {
                Some(o) => self@.contains_key(name@) && o@ == self@[name@],
                None => !self@.contains_key(name@),
            },
    {
        proof {
            use_type_invariant(&*self);
        }
        let ghost s = self.entries.deep_view();
        let n = self.entries.len();
        let mut i: usize = 0;
        while i < n
            invariant
                0 <= i <= n,
                n == self.entries@.len(),
                s == self.entries.deep_view(),
                unique_arg_names(s),
                forall|k: int| 0 <= k < i ==> (#[trigger] s[k].arg) != name@,
            decreases n - i,
        {
            if self.entries[i].arg == *name {
                proof {
                    lemma_outputs_to_map_found(s, i as int);
                }
                return Some(&self.entries[i]);
            }
            i += 1;
        }
        proof {
            lemma_outputs_to_map_absent(s, name@);
        }
        None
    }
}

} // verus!
