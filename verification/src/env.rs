//! The environment that paths are resolved against.
//!
//! The library never reads the process environment. Its callers hand it an
//! [`Environment`]: the variables that are set, with their values, and the
//! home directory if there is one. A test fills one by hand; a program fills
//! one from the host once and passes it on.

use vstd::prelude::*;
use crate::text::chars_of;
use crate::text::same_text;
use crate::text::string_of;

verus! {

/// One variable that is set.
struct Binding {
    name: Vec<char>,
    value: Vec<char>,
}

/// Variables and home directory, as the resolver sees them.
pub struct Environment {
    /// The bindings in the order they were made; a later one of the same name
    /// is the one that counts.
    bindings: Vec<Binding>,
    home: Option<Vec<char>>,
}

/// What an [`Environment`] stands for.
pub struct EnvironmentView {
    /// The variables that are set, by name.
    pub vars: Map<Seq<char>, Seq<char>>,
    /// The home directory, if it is known.
    pub home: Option<Seq<char>>,
}

/// The value of `name` in `vars`, if it is set.
pub open spec fn lookup(vars: Map<Seq<char>, Seq<char>>, name: Seq<char>) -> Option<Seq<char>> {
    if vars.contains_key(name) {
        Some(vars[name])
    } else {
        None
    }
}

/// The text that a reference to `name` is replaced with: its value, or
/// nothing where it is not set.
pub open spec fn value_or_empty(vars: Map<Seq<char>, Seq<char>>, name: Seq<char>) -> Seq<char> {
    match lookup(vars, name) {
        Some(value) => value,
        None => Seq::empty(),
    }
}

/// The variables that a list of bindings sets.
spec fn bound(bindings: Seq<Binding>) -> Map<Seq<char>, Seq<char>>
    decreases bindings.len(),
{
    if bindings.len() == 0 {
        Map::empty()
    } else {
        bound(bindings.drop_last()).insert(bindings.last().name@, bindings.last().value@)
    }
}

impl View for Environment {
    type V = EnvironmentView;

    closed spec fn view(&self) -> EnvironmentView {
        EnvironmentView {
            vars: bound(self.bindings@),
            home: match self.home {
                Some(h) => Some(h@),
                None => None,
            },
        }
    }
}

impl Environment {
    /// An environment with no variable set and no home directory.
    pub fn new() -> (env: Environment)
        ensures
            env@.vars == Map::<Seq<char>, Seq<char>>::empty(),
            env@.home is None,
    {
        Environment { bindings: Vec::new(), home: None }
    }

    /// Sets `name` to `value`, in place of any value it had.
    pub fn set_var(&mut self, name: &str, value: &str)
        ensures
            final(self)@.vars == old(self)@.vars.insert(name@, value@),
            final(self)@.home == old(self)@.home,
    {
        let binding = Binding { name: chars_of(name), value: chars_of(value) };
        self.bindings.push(binding);
        assert(self.bindings@.drop_last() == old(self).bindings@);
    }

    /// Sets the home directory.
    pub fn set_home(&mut self, home: &str)
        ensures
            final(self)@.vars == old(self)@.vars,
            final(self)@.home == Some(home@),
    {
        self.home = Some(chars_of(home));
    }

    /// The value of `name`, if it is set.
    pub fn var(&self, name: &str) -> (value: Option<String>)
        ensures
            match value {
                Some(v) => lookup(self@.vars, name@) == Some(v@),
                None => lookup(self@.vars, name@) is None,
            },
    {
        let name_chars = chars_of(name);
        match self.value_of(name_chars.as_slice()) {
            Some(v) => Some(string_of(v)),
            None => None,
        }
    }

    /// The home directory, if it is known.
    pub fn home(&self) -> (home: Option<String>)
        ensures
            match home {
                Some(h) => self@.home == Some(h@),
                None => self@.home is None,
            },
    {
        match &self.home {
            Some(h) => Some(string_of(h.as_slice())),
            None => None,
        }
    }

    /// The value of `name` as characters, if it is set.
    pub(crate) fn value_of(&self, name: &[char]) -> (value: Option<&[char]>)
        ensures
            match value {
                Some(v) => lookup(self@.vars, name@) == Some(v@),
                None => lookup(self@.vars, name@) is None,
            },
    {
        let mut i: usize = self.bindings.len();
        assert(self.bindings@.take(i as int) == self.bindings@);
        while i > 0
            invariant
                i <= self.bindings.len(),
                lookup(bound(self.bindings@), name@) == lookup(
                    bound(self.bindings@.take(i as int)),
                    name@,
                ),
            decreases i,
        {
            i -= 1;
            assert(self.bindings@.take(i + 1).drop_last() == self.bindings@.take(i as int));
            if same_text(self.bindings[i].name.as_slice(), name) {
                return Some(self.bindings[i].value.as_slice());
            }
        }
        None
    }

    /// The home directory as characters, if it is known.
    pub(crate) fn home_chars(&self) -> (home: Option<&[char]>)
        ensures
            match home {
                Some(h) => self@.home == Some(h@),
                None => self@.home is None,
            },
    {
        match &self.home {
            Some(h) => Some(h.as_slice()),
            None => None,
        }
    }
}

} // verus!
