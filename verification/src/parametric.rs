//! Named model parameters, each with a value of type `S` and an optional
//! formula.
use vstd::prelude::*;
use vstd::string::*;

use crate::keyed::StrMap;

verus! {

/// A named parameter with a value and an optional formula.
#[derive(Debug, Clone)]
pub struct Parameter<S> {
    pub name: String,
    pub value: S,
    pub formula: Option<String>,
}

/// A collection of parameters, one per name.
#[derive(Debug, Clone)]
pub struct ParametricModel<S> {
    params: StrMap<Parameter<S>>,
}

impl<S> View for ParametricModel<S> {
    type V = Map<Seq<char>, Parameter<S>>;

    closed spec fn view(&self) -> Map<Seq<char>, Parameter<S>> {
        self.params@
    }
}

impl<S> Default for ParametricModel<S> {
    fn default() -> (m: Self)
        ensures
            m.wf(),
            m@ == Map::<Seq<char>, Parameter<S>>::empty(),
    {
        ParametricModel::new()
    }
}

impl<S> ParametricModel<S> {
    /// The underlying map is well formed.
    pub closed spec fn wf(&self) -> bool {
        self.params.wf()
    }

    /// A model with no parameters.
    pub fn new() -> (m: Self)
        ensures
            m.wf(),
            m@ == Map::<Seq<char>, Parameter<S>>::empty(),
    {
        ParametricModel { params: StrMap::new() }
    }

    /// Set parameter `name` to `value`, with no formula; an earlier
    /// parameter of that name is replaced.
    pub fn set(&mut self, name: &str, value: S)
        requires
            old(self).wf(),
        ensures
            final(self).wf(),
            final(self)@ == old(self)@.insert(name@, final(self)@[name@]),
            final(self)@[name@].name@ == name@,
            final(self)@[name@].value == value,
            final(self)@[name@].formula is None,
            final(self)@.dom().finite(),
    {
        let p = Parameter { name: String::from_str(name), value, formula: None };
        self.params.insert(String::from_str(name), p);
        proof {
            self.params.lemma_finite();
        }
    }

    /// The value of parameter `name`, if there is one.
    pub fn get(&self, name: &str) -> (r: Option<S>) where S: Copy
        requires
            self.wf(),
        ensures
            r == if self@.contains_key(name@) {
                Some(self@[name@].value)
            } else {
                None::<S>
            },
    {
        match self.params.get(name) {
            Some(p) => Some(p.value),
            None => None,
        }
    }

    /// Number of parameters.
    pub fn len(&self) -> (n: usize)
        requires
            self.wf(),
        ensures
            n == self@.len(),
            self@.dom().finite(),
    {
        self.params.len()
    }

    /// Whether there are no parameters.
    pub fn is_empty(&self) -> (b: bool)
        requires
            self.wf(),
        ensures
            b == (self@.len() == 0),
    {
        self.params.is_empty()
    }
}

/// Setting a parameter and reading it back gives the value set; other
/// parameters keep theirs.
pub proof fn lemma_set_then_get<S>(m: Map<Seq<char>, Parameter<S>>, name: Seq<char>, p: Parameter<S>, other: Seq<char>)
    requires
        other != name,
    ensures
        m.insert(name, p)[name] == p,
        m.insert(name, p).contains_key(other) == m.contains_key(other),
        m.contains_key(other) ==> m.insert(name, p)[other] == m[other],
{
}

} // verus!
