//! The raw-token source and the tokenizer.
//!
//! [`FancyArgs`] holds the ordered raw argument strings together with a
//! forward-only cursor: each parse pass consumes tokens by advancing the
//! cursor, never by revisiting earlier positions. [`classify`] decides
//! whether one token looks like a flag and strips its dash prefix.

use vstd::prelude::*;

verus! {

/// The mathematical value of a [`FancyArgs`]: the token texts in arrival
/// order and the cursor position.
pub struct FancyArgsView {
    pub tokens: Seq<Seq<char>>,
    pub cursor: int,
}

/// The ordered sequence of raw argument strings, consumed left to right
/// through a single-use cursor. Restarting a parse requires a fresh
/// `FancyArgs` over the same tokens.
#[derive(Debug)]
pub struct FancyArgs {
    tokens: Vec<String>,
    cursor: usize,
}

impl View for FancyArgs {
    type V = FancyArgsView;

    closed spec fn view(&self) -> FancyArgsView {
        FancyArgsView { tokens: self.tokens.deep_view(), cursor: self.cursor as int }
    }
}

impl FancyArgs {
    #[verifier::type_invariant]
    spec fn inv(self) -> bool {
        self.cursor as int <= self.tokens@.len()
    }

    /// Wraps an already-materialized token list, with the cursor at the
    /// first token.
    pub fn new(tokens: Vec<String>) -> (r: FancyArgs)
        ensures
            r@.tokens == tokens.deep_view(),
            r@.cursor == 0,
    {
        FancyArgs { tokens, cursor: 0 }
    }

    /// The underlying token list, in arrival order.
    pub fn toks(&self) -> (r: &Vec<String>)
        ensures
            r.deep_view() == self@.tokens,
    {
        &self.tokens
    }

    /// The cursor: the index of the next token to be consumed.
    pub fn pos(&self) -> (r: usize)
        ensures
            r as int == self@.cursor,
            r as int <= self@.tokens.len(),
    {
        proof {
            use_type_invariant(&*self);
        }
        self.cursor
    }

    /// Moves the cursor; tokens before the new position count as consumed.
    pub(crate) fn set_pos(&mut self, cursor: usize)
        requires
            cursor as int <= old(self)@.tokens.len(),
        ensures
            final(self)@.tokens == old(self)@.tokens,
            final(self)@.cursor == cursor as int,
    {
        self.cursor = cursor;
    }
}

/// Whether two token lists hold the same texts in the same order.
pub fn vec_str_eq(a: &Vec<String>, b: &Vec<String>) -> (r: bool)
    ensures
        r == (a.deep_view() == b.deep_view()),
{
    if a.len() != b.len() {
        proof {
            assert(a.deep_view().len() == a@.len());
            assert(b.deep_view().len() == b@.len());
        }
        return false;
    }
    let n = a.len();
    let mut i: usize = 0;
    while i < n
        invariant
            0 <= i <= n,
            n == a@.len(),
            n == b@.len(),
            forall|k: int| 0 <= k < i ==> a.deep_view()[k] == b.deep_view()[k],
        decreases n - i,
    {
        if !(a[i] == b[i]) {
            assert(a.deep_view()[i as int] != b.deep_view()[i as int]);
            return false;
        }
        i += 1;
    }
    proof {
        assert(a.deep_view() =~= b.deep_view());
    }
    true
}

impl PartialEq for FancyArgs {
    fn eq(&self, other: &FancyArgs) -> (r: bool) {
        vec_str_eq(&self.tokens, &other.tokens) && self.cursor == other.cursor
    }
}

impl Eq for FancyArgs {

}

impl vstd::std_specs::cmp::PartialEqSpecImpl for FancyArgs {
    open spec fn obeys_eq_spec() -> bool {
        true
    }

    open spec fn eq_spec(&self, other: &FancyArgs) -> bool {
        self@ == other@
    }
}

/// Whether the token text looks like a flag: it starts with a dash.
pub open spec fn spec_is_flag(t: Seq<char>) -> bool {
    t.len() >= 1 && t[0] == '-'
}

/// The flag name left after removing the dash prefix: two leading dashes
/// are removed when present, otherwise one; a token with no leading dash
/// is left as it is.
pub open spec fn spec_strip_flag(t: Seq<char>) -> Seq<char> {
    if t.len() >= 2 && t[0] == '-' && t[1] == '-' {
        t.subrange(2, t.len() as int)
    } else if t.len() >= 1 && t[0] == '-' {
        t.subrange(1, t.len() as int)
    } else {
        t
    }
}

/// The token text with every leading dash removed: the bare form the
/// required-argument check compares against descriptor identifiers.
pub open spec fn strip_dashes(t: Seq<char>) -> Seq<char>
    decreases t.len(),
{
    if t.len() >= 1 && t[0] == '-' {
        strip_dashes(t.subrange(1, t.len() as int))
    } else {
        t
    }
}

proof fn lemma_strip_dashes_at(t: Seq<char>, i: int)
    requires
        0 <= i <= t.len(),
        forall|k: int| 0 <= k < i ==> t[k] == '-',
        i < t.len() ==> t[i] != '-',
    ensures
        strip_dashes(t) == t.subrange(i, t.len() as int),
    decreases i,
{
    if i == 0 {
        assert(t.subrange(0, t.len() as int) =~= t);
    } else {
        let tail = t.subrange(1, t.len() as int);
        assert(t[0] == '-');
        assert forall|k: int| 0 <= k < i - 1 implies tail[k] == '-' by {
            assert(tail[k] == t[k + 1]);
        }
        assert(i - 1 < tail.len() ==> tail[i - 1] != '-');
        lemma_strip_dashes_at(tail, i - 1);
        assert(tail.subrange(i - 1, tail.len() as int) =~= t.subrange(i, t.len() as int));
    }
}

/// The bare form of one raw token: every leading dash removed.
pub fn strip_all_dashes(t: &String) -> (r: String)
    ensures
        r@ == strip_dashes(t@),
{
    let n = t.as_str().unicode_len();
    let mut i: usize = 0;
    while i < n && t.as_str().get_char(i) == '-'
        invariant
            0 <= i <= n,
            n == t@.len(),
            forall|k: int| 0 <= k < i ==> t@[k] == '-',
        decreases n - i,
    {
        i += 1;
    }
    proof {
        lemma_strip_dashes_at(t@, i as int);
    }
    t.as_str().substring_char(i, n).to_owned()
}

/// Whether some raw token's bare form (every leading dash removed) equals
/// `s`.
pub open spec fn bare_token_match(toks: Seq<Seq<char>>, s: Seq<char>) -> bool {
    exists|k: int| 0 <= k < toks.len() && strip_dashes(#[trigger] toks[k]) == s
}

/// Whether the bare form of some token in the list equals `s`.
pub fn bare_tokens_contain(toks: &Vec<String>, s: &String) -> (r: bool)
    ensures
        r == bare_token_match(toks.deep_view(), s@),
{
    let n = toks.len();
    let mut k: usize = 0;
    while k < n
        invariant
            0 <= k <= n,
            n == toks@.len(),
            forall|k2: int|
                0 <= k2 < k ==> strip_dashes(#[trigger] toks.deep_view()[k2]) != s@,
        decreases n - k,
    {
        let bare = strip_all_dashes(&toks[k]);
        if bare == *s {
            assert(strip_dashes(toks.deep_view()[k as int]) == s@);
            return true;
        }
        k += 1;
    }
    false
}

/// Classifies one raw token: flag-like tokens (one or two leading dashes)
/// come back as `(true, Some(stripped))` with exactly the matched dash
/// prefix removed; anything else is a bare value, `(false, None)`.
pub fn classify(token: &String) -> (r: (bool, Option<String>))
    ensures
        r.0 == spec_is_flag(token@),
        r.0 ==> (r.1 matches Some(s) && s@ == spec_strip_flag(token@)),
        !r.0 ==> r.1 is None,
{
    let n = token.as_str().unicode_len();
    if n >= 2 && token.as_str().get_char(0) == '-' && token.as_str().get_char(1) == '-' {
        let stripped = token.as_str().substring_char(2, n);
        (true, Some(stripped.to_owned()))
    } else if n >= 1 && token.as_str().get_char(0) == '-' {
        let stripped = token.as_str().substring_char(1, n);
        (true, Some(stripped.to_owned()))
    } else {
        (false, None)
    }
}

} // verus!
