//! The variables of the environment, as a value that can be handed around.

use vstd::prelude::*;
use crate::text::{same_text, text_of};

verus! {

/// Why a variable has no usable value.
#[derive(Clone, Copy, Debug, PartialEq, Eq, Structural)]
pub enum VarError {
    /// The variable is not set.
    NotPresent,
    /// The variable is set to something that is not valid Unicode.
    NotUnicode,
}

/// One variable: its name, and its value where that is valid Unicode.
#[derive(Debug)]
pub struct Var {
    pub name: String,
    pub value: Option<String>,
}

/// The bindings that a list of settings amounts to; a later setting of a name
/// replaces an earlier one.
pub open spec fn bindings(vars: Seq<Var>) -> Map<Seq<char>, Option<Seq<char>>>
    decreases vars.len(),
{
    if vars.len() == 0 {
        Map::empty()
    } else {
        bindings(vars.drop_last()).insert(vars.last().name@, text_of(vars.last().value))
    }
}

/// What looking a name up in the bindings gives.
pub open spec fn lookup(env: Map<Seq<char>, Option<Seq<char>>>, name: Seq<char>) -> Result<
    Seq<char>,
    VarError,
> {
    if !env.contains_key(name) {
        Err(VarError::NotPresent)
    } else {
        match env[name] {
            Some(text) => Ok(text),
            None => Err(VarError::NotUnicode),
        }
    }
}

/// A snapshot of the environment's variables.
#[derive(Debug)]
pub struct Env {
    vars: Vec<Var>,
}

impl View for Env {
    type V = Map<Seq<char>, Option<Seq<char>>>;

    closed spec fn view(&self) -> Map<Seq<char>, Option<Seq<char>>> {
        bindings(self.vars@)
    }
}

impl Env {
    /// The environment in which nothing is set.
    pub fn new() -> (env: Env)
        ensures
            env@ == Map::<Seq<char>, Option<Seq<char>>>::empty(),
    {
        Env { vars: Vec::new() }
    }

    /// Sets `name` to `value`.
    pub fn set(&mut self, name: &str, value: &str)
        ensures
            final(self)@ == old(self)@.insert(name@, Some(value@)),
    {
        self.vars.push(Var { name: name.to_owned(), value: Some(value.to_owned()) });
        assert(self.vars@.drop_last() == old(self).vars@);
    }

    /// Records that `name` is set to something that is not valid Unicode.
    pub fn set_unreadable(&mut self, name: &str)
        ensures
            final(self)@ == old(self)@.insert(name@, None),
    {
        self.vars.push(Var { name: name.to_owned(), value: None });
        assert(self.vars@.drop_last() == old(self).vars@);
    }

    /// The value of `name`, or why there is none.
    pub fn var(&self, name: &str) -> (r: Result<String, VarError>)
        ensures
            match lookup(self@, name@) {
                Ok(text) => r matches Ok(found) && found@ == text,
                Err(e) => r == Err::<String, VarError>(e),
            },
    {
        let mut i: usize = self.vars.len();
        assert(self.vars@.take(i as int) == self.vars@);
        while i > 0
            invariant
                i <= self.vars.len(),
                lookup(bindings(self.vars@), name@) == lookup(
                    bindings(self.vars@.take(i as int)),
                    name@,
                ),
            decreases i,
        {
            let var = &self.vars[i - 1];
            assert(self.vars@.take(i as int).drop_last() == self.vars@.take(i - 1));
            assert(self.vars@.take(i as int).last() == self.vars@[i - 1]);
            if same_text(var.name.as_str(), name) {
                return match &var.value {
                    Some(text) => Ok(text.clone()),
                    None => Err(VarError::NotUnicode),
                };
            }
            i = i - 1;
        }
        Err(VarError::NotPresent)
    }
}

} // verus!
