//! The variable environment: one flat mapping from names to values.

use crate::parser::{Value, ValueView};
use crate::text::{decimal_string, decimal_text};
use vstd::prelude::*;

verus! {

/// What a value looks like in text: strings and heredoc text are
/// themselves, integers are written in decimal, booleans are `true` or
/// `false`, an array is the marker `[array]` whatever it holds, and the
/// result of a call that yields nothing is the empty text.
pub open spec fn display(value: ValueView) -> Seq<char> {
    match value {
        ValueView::String(text) => text,
        ValueView::HereDocText(text) => text,
        ValueView::Integer(n) => decimal_text(n as int),
        ValueView::Bool(b) => if b {
            "true"@
        } else {
            "false"@
        },
        ValueView::Array(_) => "[array]"@,
        ValueView::Void => Seq::empty(),
    }
}

impl Value {
    /// The display form of the value.
    pub fn to_string(&self) -> (r: String)
        ensures
            r@ == display(self@),
    {
        match self {
            Value::String(text) => text.clone(),
            Value::HereDocText(text) => text.clone(),
            Value::Integer(n) => decimal_string(*n),
            Value::Bool(b) => if *b {
                "true".to_owned()
            } else {
                "false".to_owned()
            },
            Value::Array(_) => "[array]".to_owned(),
            Value::Void => String::new(),
        }
    }

    /// A copy of the value.
    pub fn duplicate(&self) -> (r: Value)
        ensures
            r@ == self@,
        decreases self,
    {
        match self {
            Value::String(text) => Value::String(text.clone()),
            Value::HereDocText(text) => Value::HereDocText(text.clone()),
            Value::Integer(n) => Value::Integer(*n),
            Value::Bool(b) => Value::Bool(*b),
            Value::Array(items) => {
                let mut copies: Vec<Value> = Vec::new();
                let mut k: usize = 0;
                while k < items.len()
                    invariant
                        *self == Value::Array(*items),
                        k <= items@.len(),
                        copies@.len() == k,
                        forall|i: int| 0 <= i < k ==> copies@[i]@ == items@[i]@,
                    decreases items@.len() - k,
                {
                    let item = &items[k];
                    assert(decreases_to!(self => item)) by {
                        assert(self->Array_0 == *items);
                        assert(decreases_to!(self => self->Array_0));
                        assert(decreases_to!(self->Array_0 => self->Array_0@));
                        assert(decreases_to!(self->Array_0@ => self->Array_0@[k as int]));
                    }
                    copies.push(item.duplicate());
                    k = k + 1;
                }
                assert(crate::parser::values_view(copies@) =~= crate::parser::values_view(
                    items@,
                ));
                Value::Array(copies)
            },
            Value::Void => Value::Void,
        }
    }
}

/// The mathematical model of an environment: its bindings in the order in
/// which the names were first bound.
pub type EnvView = Seq<(Seq<char>, ValueView)>;

/// The index of the first binding of `name` at or after `from`, or -1 where
/// there is none.
pub open spec fn position(env: EnvView, name: Seq<char>, from: int) -> int
    decreases env.len() - from,
{
    if from < 0 || from >= env.len() {
        -1
    } else if env[from].0 == name {
        from
    } else {
        position(env, name, from + 1)
    }
}

/// The value bound to `name`, where it is bound.
pub open spec fn lookup(env: EnvView, name: Seq<char>) -> Option<ValueView> {
    let found = position(env, name, 0);
    if found >= 0 {
        Some(env[found].1)
    } else {
        None
    }
}

/// The environment after `name` is bound to `value`: a name already bound
/// keeps its place and gets the new value, a new name comes last.
pub open spec fn assign(env: EnvView, name: Seq<char>, value: ValueView) -> EnvView {
    let found = position(env, name, 0);
    if found >= 0 {
        env.update(found, (name, value))
    } else {
        env.push((name, value))
    }
}

/// The names of the bindings, in order.
pub open spec fn names_of(env: EnvView) -> Seq<Seq<char>> {
    Seq::new(env.len(), |i: int| env[i].0)
}

/// The display forms of the values of the bindings, in order.
pub open spec fn texts_of(env: EnvView) -> Seq<Seq<char>> {
    Seq::new(env.len(), |i: int| display(env[i].1))
}

/// Whether no name is bound twice.
pub open spec fn distinct(env: EnvView) -> bool {
    forall|i: int, j: int| 0 <= i < j < env.len() ==> (#[trigger] env[i]).0 != (#[trigger] env[j]).0
}

/// The mapping that the bindings stand for.
pub open spec fn mapping(env: EnvView) -> Map<Seq<char>, ValueView> {
    Map::new(|name: Seq<char>| lookup(env, name) is Some, |name: Seq<char>| lookup(env, name)->0)
}

/// What `position` finds is the first binding of the name.
pub proof fn lemma_position(env: EnvView, name: Seq<char>, from: int)
    requires
        0 <= from,
    ensures
        position(env, name, from) == -1 || (from <= position(env, name, from) < env.len()
            && env[position(env, name, from)].0 == name),
        forall|k: int|
            from <= k < env.len() && (k < position(env, name, from) || position(env, name, from)
                == -1) ==> (#[trigger] env[k]).0 != name,
    decreases env.len() - from,
{
    if from < env.len() && env[from].0 != name {
        lemma_position(env, name, from + 1);
    }
}

/// The variable environment of a run.
#[derive(Debug)]
pub struct Environment {
    entries: Vec<(String, Value)>,
}

impl View for Environment {
    type V = EnvView;

    closed spec fn view(&self) -> EnvView {
        Seq::new(self.entries@.len(), |i: int| (self.entries@[i].0@, self.entries@[i].1@))
    }
}

impl Environment {
    /// An environment without bindings.
    pub fn new() -> (r: Environment)
        ensures
            r@ == Seq::<(Seq<char>, ValueView)>::empty(),
            distinct(r@),
    {
        let r = Environment { entries: Vec::new() };
        assert(r@ =~= Seq::<(Seq<char>, ValueView)>::empty());
        r
    }

    /// The number of bindings.
    pub fn len(&self) -> (r: usize)
        ensures
            r == self@.len(),
    {
        self.entries.len()
    }

    fn find(&self, name: &String) -> (r: Option<usize>)
        ensures
            match r {
                Some(found) => position(self@, name@, 0) == found && found < self.entries@.len(),
                None => position(self@, name@, 0) == -1,
            },
    {
        let mut k: usize = 0;
        while k < self.entries.len()
            invariant
                k <= self.entries@.len(),
                self@.len() == self.entries@.len(),
                position(self@, name@, 0) == position(self@, name@, k as int),
            decreases self.entries@.len() - k,
        {
            if self.entries[k].0 == *name {
                return Some(k);
            }
            k = k + 1;
        }
        None
    }

    /// The value bound to `name`, where it is bound.
    pub fn get(&self, name: &String) -> (r: Option<&Value>)
        ensures
            match r {
                Some(value) => lookup(self@, name@) == Some(value@),
                None => lookup(self@, name@) is None,
            },
    {
        match self.find(name) {
            Some(found) => Some(&self.entries[found].1),
            None => None,
        }
    }

    /// Binds `name` to `value`, in place of what it was bound to before.
    pub fn set(&mut self, name: String, value: Value)
        ensures
            final(self)@ == assign(old(self)@, name@, value@),
            distinct(old(self)@) ==> distinct(final(self)@),
    {
        proof {
            if distinct(self@) {
                crate::laws::lemma_assign_keeps_distinct(self@, name@, value@);
            }
        }
        match self.find(&name) {
            Some(found) => {
                self.entries[found] = (name, value);
                assert(self@ =~= assign(old(self)@, name@, value@));
            },
            None => {
                self.entries.push((name, value));
                assert(self@ =~= assign(old(self)@, name@, value@));
            },
        }
    }

    /// The names of the bindings, in order.
    pub fn names(&self) -> (r: Vec<String>)
        ensures
            crate::text::strings_view(r@) == names_of(self@),
    {
        let mut out: Vec<String> = Vec::new();
        let mut k: usize = 0;
        while k < self.entries.len()
            invariant
                k <= self.entries@.len(),
                out@.len() == k,
                forall|i: int| 0 <= i < k ==> out@[i]@ == self.entries@[i].0@,
            decreases self.entries@.len() - k,
        {
            out.push(self.entries[k].0.clone());
            k = k + 1;
        }
        assert(crate::text::strings_view(out@) =~= names_of(self@));
        out
    }

    /// The display forms of the values of the bindings, in order.
    pub fn texts(&self) -> (r: Vec<String>)
        ensures
            crate::text::strings_view(r@) == texts_of(self@),
    {
        let mut out: Vec<String> = Vec::new();
        let mut k: usize = 0;
        while k < self.entries.len()
            invariant
                k <= self.entries@.len(),
                out@.len() == k,
                forall|i: int| 0 <= i < k ==> out@[i]@ == display(self.entries@[i].1@),
            decreases self.entries@.len() - k,
        {
            out.push(self.entries[k].1.to_string());
            k = k + 1;
        }
        assert(crate::text::strings_view(out@) =~= texts_of(self@));
        out
    }
}

} // verus!
