//! Shell variables: a store of named values, and the positional arguments
//! of a function, which are the variables named `1`, `2`, and so on.

use std::rc::Rc;
use vstd::prelude::*;
use crate::expr::{Command, CommandView};
use crate::table::Table;
use crate::text::{decimal, texts, to_decimal};

verus! {

/// What a variable can hold.
#[derive(Debug)]
pub enum Value {
    String(String),
    Array(Vec<String>),
    Function(Box<Command>),
}

/// The mathematical value of a [`Value`].
pub enum ValueView {
    String(Seq<char>),
    Array(Seq<Seq<char>>),
    Function(CommandView),
}

impl View for Value {
    type V = ValueView;

    open spec fn view(&self) -> ValueView {
        match *self {
            Value::String(text) => ValueView::String(text@),
            Value::Array(items) => ValueView::Array(texts(items@)),
            Value::Function(command) => ValueView::Function(command@),
        }
    }
}

/// The view of a value that may be absent.
pub open spec fn value_view(value: Option<Value>) -> Option<ValueView> {
    match value {
        Some(v) => Some(v@),
        None => None,
    }
}

/// The text that stands for a value: a string itself, the first element
/// of an array, a fixed word for a function, and nothing for no value.
pub open spec fn text_of(value: Option<ValueView>) -> Seq<char> {
    match value {
        Some(ValueView::String(text)) => text,
        Some(ValueView::Function(_)) => "(function)"@,
        Some(ValueView::Array(items)) => if items.len() > 0 {
            items[0]
        } else {
            Seq::empty()
        },
        None => Seq::empty(),
    }
}

/// A variable: declared, and possibly given a value.
#[derive(Debug)]
pub struct Variable {
    value: Option<Value>,
}

impl View for Variable {
    type V = Option<ValueView>;

    closed spec fn view(&self) -> Option<ValueView> {
        value_view(self.value)
    }
}

impl Variable {
    pub fn new(value: Option<Value>) -> (r: Variable)
        ensures
            r@ == value_view(value),
    {
        Variable { value }
    }

    pub fn value(&self) -> (r: &Option<Value>)
        ensures
            value_view(*r) == self@,
    {
        &self.value
    }

    /// The text that stands for the value.
    pub fn as_str(&self) -> (r: &str)
        ensures
            r@ == text_of(self@),
    {
        proof {
            reveal_strlit("");
        }
        match &self.value {
            Some(Value::String(value)) => value.as_str(),
            Some(Value::Function(_)) => "(function)",
            Some(Value::Array(elems)) => {
                if elems.len() > 0 {
                    elems[0].as_str()
                } else {
                    ""
                }
            },
            None => "",
        }
    }
}

/// The store type's mathematical value: values by name.
pub type Store = Map<Seq<char>, Option<ValueView>>;

/// The largest number that names a positional argument.
pub const MAX_FUNC_ARGS: u64 = 0xffff_ffff_ffff_fffe;

/// How many of the names `from`, `from + 1`, and so on, up to `limit`,
/// are in the store before the first that is missing.
pub open spec fn arg_count(vars: Store, from: nat, limit: nat) -> nat
    decreases limit + 1 - from,
{
    if from > limit || !vars.contains_key(decimal(from)) {
        0
    } else {
        1 + arg_count(vars, from + 1, limit)
    }
}

/// The positional arguments: the values under the names `1`, `2`, and so
/// on, up to the first name that is missing, and to `limit` at most.
pub open spec fn func_args(vars: Store, limit: nat) -> Seq<Option<ValueView>> {
    Seq::new(arg_count(vars, 1, limit), |i: int| vars[decimal((i + 1) as nat)])
}

/// The texts of those of `values` that are strings, in order.
pub open spec fn string_values(values: Seq<Option<ValueView>>) -> Seq<Seq<char>>
    decreases values.len(),
{
    if values.len() == 0 {
        Seq::empty()
    } else {
        let rest = string_values(values.drop_last());
        match values.last() {
            Some(ValueView::String(text)) => rest.push(text),
            _ => rest,
        }
    }
}

/// The store after `args` have been made the positional arguments `1`,
/// `2`, and so on: names beyond them keep what they had.
pub open spec fn with_func_args(vars: Store, args: Seq<Seq<char>>) -> Store
    decreases args.len(),
{
    if args.len() == 0 {
        vars
    } else {
        with_func_args(vars, args.drop_last()).insert(
            decimal(args.len()),
            Some(ValueView::String(args.last())),
        )
    }
}

/// A second handle to a shared variable.
///
/// Wraps `Rc::clone` of the standard library: the new handle refers to the
/// very value that the given one refers to.
#[verifier::external_body]
fn share(variable: &Rc<Variable>) -> (r: Rc<Variable>)
    ensures
        r == *variable,
{
    Rc::clone(variable)
}

/// A store of variables by name.
#[derive(Debug)]
pub struct Variables {
    vars: Table<Rc<Variable>>,
}

impl View for Variables {
    type V = Store;

    closed spec fn view(&self) -> Store {
        self.vars@.map_values(|variable: Rc<Variable>| variable@)
    }
}

impl Variables {
    /// What holds of every store: no two entries share a name.
    pub closed spec fn wf(&self) -> bool {
        self.vars.wf()
    }

    /// An empty store.
    pub fn new() -> (r: Variables)
        ensures
            r.wf(),
            r@ == Store::empty(),
    {
        Variables { vars: Table::new() }
    }

    /// Declares `key`, with no value.
    pub fn define(&mut self, key: &str)
        requires
            old(self).wf(),
        ensures
            final(self).wf(),
            final(self)@ == old(self)@.insert(key@, None),
    {
        self.put(key, Variable::new(None));
    }

    /// Gives `key` the value `value`.
    pub fn set(&mut self, key: &str, value: Value)
        requires
            old(self).wf(),
        ensures
            final(self).wf(),
            final(self)@ == old(self)@.insert(key@, Some(value@)),
    {
        self.put(key, Variable::new(Some(value)));
    }

    /// Stores `variable` under `key`, in place of what was there.
    fn put(&mut self, key: &str, variable: Variable)
        requires
            old(self).wf(),
        ensures
            final(self).wf(),
            final(self)@ == old(self)@.insert(key@, variable@),
    {
        self.vars.put(key, Rc::new(variable));
    }

    /// Takes `key` out of the store, and returns what it held.
    pub fn remove(&mut self, key: &str) -> (r: Option<Rc<Variable>>)
        requires
            old(self).wf(),
        ensures
            final(self).wf(),
            final(self)@ == old(self)@.remove(key@),
            match r {
                Some(variable) => old(self)@.contains_key(key@) && variable@ == old(self)@[key@],
                None => !old(self)@.contains_key(key@),
            },
    {
        self.vars.take(key)
    }

    /// What `key` holds.
    pub fn get(&self, key: &str) -> (r: Option<Rc<Variable>>)
        requires
            self.wf(),
        ensures
            match r {
                Some(variable) => self@.contains_key(key@) && variable@ == self@[key@],
                None => !self@.contains_key(key@),
            },
    {
        match self.vars.get(key) {
            Some(variable) => Some(share(variable)),
            None => None,
        }
    }

    /// The positional arguments, in order.
    pub fn get_func_args(&self) -> (r: Vec<Rc<Variable>>)
        requires
            self.wf(),
        ensures
            r@.len() == func_args(self@, MAX_FUNC_ARGS as nat).len(),
            forall|i: int|
                0 <= i < r@.len() ==> (#[trigger] r@[i])@ == func_args(
                    self@,
                    MAX_FUNC_ARGS as nat,
                )[i],
    {
        let mut args: Vec<Rc<Variable>> = Vec::new();
        let mut i: u64 = 1;
        while i <= MAX_FUNC_ARGS
            invariant
                self.wf(),
                1 <= i <= MAX_FUNC_ARGS + 1,
                args@.len() == i - 1,
                arg_count(self@, 1, MAX_FUNC_ARGS as nat) == (i - 1) + arg_count(
                    self@,
                    i as nat,
                    MAX_FUNC_ARGS as nat,
                ),
                forall|j: int|
                    0 <= j < args@.len() ==> (#[trigger] args@[j])@ == self@[decimal(
                        (j + 1) as nat,
                    )],
            decreases MAX_FUNC_ARGS + 1 - i,
        {
            let key = to_decimal(i);
            match self.get(key.as_str()) {
                Some(variable) => {
                    args.push(variable);
                },
                None => {
                    return args;
                },
            }
            i += 1;
        }
        args
    }

    /// The positional arguments that are strings, in order.
    pub fn get_func_args_string(&self) -> (r: Vec<String>)
        requires
            self.wf(),
        ensures
            texts(r@) == string_values(func_args(self@, MAX_FUNC_ARGS as nat)),
    {
        let found = self.get_func_args();
        let ghost values = func_args(self@, MAX_FUNC_ARGS as nat);
        let mut args: Vec<String> = Vec::new();
        let n = found.len();
        let mut i: usize = 0;
        while i < n
            invariant
                n == found@.len(),
                n == values.len(),
                i <= n,
                forall|j: int| 0 <= j < n ==> (#[trigger] found@[j])@ == values[j],
                texts(args@) == string_values(values.take(i as int)),
            decreases n - i,
        {
            assert(values.take(i + 1).drop_last() =~= values.take(i as int));
            if let Some(Value::String(value)) = found[i].value() {
                args.push(value.clone());
            }
            i += 1;
        }
        assert(values.take(n as int) =~= values);
        args
    }

    /// Makes `args` the positional arguments `1`, `2`, and so on.
    pub fn set_func_args(&mut self, args: &[String])
        requires
            old(self).wf(),
        ensures
            final(self).wf(),
            final(self)@ == with_func_args(old(self)@, texts(args@)),
    {
        let n = args.len();
        let mut i: usize = 0;
        while i < n
            invariant
                n == args@.len(),
                i <= n,
                self.wf(),
                self@ == with_func_args(old(self)@, texts(args@).take(i as int)),
            decreases n - i,
        {
            assert(texts(args@).take(i + 1).drop_last() =~= texts(args@).take(i as int));
            let key = to_decimal((i + 1) as u64);
            self.set(key.as_str(), Value::String(args[i].clone()));
            i += 1;
        }
        assert(texts(args@).take(n as int) =~= texts(args@));
    }

    /// Gives the positional argument `index` the value `value`.
    pub fn set_nth_func_arg(&mut self, index: usize, value: Value)
        requires
            old(self).wf(),
        ensures
            final(self).wf(),
            final(self)@ == old(self)@.insert(decimal(index as nat), Some(value@)),
    {
        let key = to_decimal(index as u64);
        self.set(key.as_str(), value)
    }

    /// Takes the positional argument `index` out of the store.
    pub fn remove_nth_func_arg(&mut self, index: usize) -> (r: Option<Rc<Variable>>)
        requires
            old(self).wf(),
        ensures
            final(self).wf(),
            final(self)@ == old(self)@.remove(decimal(index as nat)),
            match r {
                Some(variable) => old(self)@.contains_key(decimal(index as nat)) && variable@
                    == old(self)@[decimal(index as nat)],
                None => !old(self)@.contains_key(decimal(index as nat)),
            },
    {
        let key = to_decimal(index as u64);
        self.remove(key.as_str())
    }

    /// The positional argument `index`.
    pub fn get_nth_func_arg(&mut self, index: usize) -> (r: Option<Rc<Variable>>)
        requires
            old(self).wf(),
        ensures
            *final(self) == *old(self),
            match r {
                Some(variable) => old(self)@.contains_key(decimal(index as nat)) && variable@
                    == old(self)@[decimal(index as nat)],
                None => !old(self)@.contains_key(decimal(index as nat)),
            },
    {
        let key = to_decimal(index as u64);
        self.get(key.as_str())
    }

    /// The number of positional arguments, counted up to nine.
    pub fn num_func_args(&self) -> (r: usize)
        requires
            self.wf(),
        ensures
            r == arg_count(self@, 1, 9),
    {
        let mut num_args: usize = 0;
        let mut i: u64 = 1;
        while i <= 9
            invariant
                self.wf(),
                1 <= i <= 10,
                num_args == i - 1,
                arg_count(self@, 1, 9) == (i - 1) + arg_count(self@, i as nat, 9),
            decreases 10 - i,
        {
            let key = to_decimal(i);
            if self.get(key.as_str()).is_none() {
                return num_args;
            }
            num_args += 1;
            i += 1;
        }
        num_args
    }
}

} // verus!
