//! Parameters of a statement and the placeholders that stand for them.

use vstd::prelude::*;
use vstd::string::*;

verus! {

/// One parameter of a statement.
#[derive(Clone, Debug)]
pub enum Param {
    U64(u64),
    String(String),
}

/// What a parameter holds.
pub enum ParamValue {
    U64(u64),
    String(Seq<char>),
}

impl DeepView for Param {
    type V = ParamValue;

    open spec fn deep_view(&self) -> ParamValue {
        match *self {
            Param::U64(value) => ParamValue::U64(value),
            Param::String(value) => ParamValue::String(value@),
        }
    }
}

/// The parameters of a statement, in the order of its placeholders.
pub struct Params(pub Vec<Param>);

impl View for Params {
    type V = Seq<ParamValue>;

    open spec fn view(&self) -> Seq<ParamValue> {
        self.0.deep_view()
    }
}

impl Params {
    /// No parameters.
    pub fn new() -> (params: Params)
        ensures
            params@ == Seq::<ParamValue>::empty(),
    {
        let params = Params(Vec::new());
        assert(params@ =~= Seq::<ParamValue>::empty());
        params
    }

    /// Adds a parameter behind those that are there.
    pub fn push(&mut self, param: Param)
        ensures
            final(self)@ == old(self)@.push(param.deep_view()),
    {
        self.0.push(param);
        assert(self@ =~= old(self)@.push(param.deep_view()));
    }

    /// The number of parameters.
    pub fn len(&self) -> (count: usize)
        ensures
            count == self@.len(),
    {
        self.0.len()
    }
}

/// `count` question marks with commas between them.
pub open spec fn placeholders(count: nat) -> Seq<char>
    decreases count,
{
    if count == 0 {
        Seq::empty()
    } else if count == 1 {
        seq!['?']
    } else {
        placeholders((count - 1) as nat) + seq![',', '?']
    }
}

/// The placeholders for `count` parameters: a question mark for each, with
/// commas between them.
pub fn param_string(count: usize) -> (text: String)
    ensures
        text@ == placeholders(count as nat),
{
    let mut text = String::new();
    if count == 0 {
        return text;
    }
    proof {
        reveal_strlit("?");
        reveal_strlit(",?");
    }
    text.append("?");
    assert(text@ =~= placeholders(1));
    let mut i: usize = 1;
    while i < count
        invariant
            1 <= i <= count,
            text@ == placeholders(i as nat),
        decreases count - i,
    {
        proof {
            reveal_strlit(",?");
        }
        text.append(",?");
        assert(text@ =~= placeholders((i + 1) as nat));
        i += 1;
    }
    text
}

} // verus!
