//! Run-time values of the interpreter.

use vstd::prelude::*;

verus! {

/// A run-time value. A float is held as the bits of its IEEE 754 binary64 encoding.
pub enum Value {
    Int(i64),
    Float(u64),
    Bool(bool),
    String(String),
    Array(Vec<Value>),
    Struct(Struct),
    Function(u64),
    Unit,
}

/// A struct value: its fields by name, in the order they were first set.
pub struct Struct {
    pub fields: Vec<(String, Value)>,
}

/// The mathematical content of a [`Value`].
pub enum ValueView {
    Int(i64),
    Float(u64),
    Bool(bool),
    String(Seq<char>),
    Array(Seq<ValueView>),
    Struct(Seq<(Seq<char>, ValueView)>),
    Function(u64),
    Unit,
}

impl Value {
    pub open spec fn deep(self) -> ValueView
        decreases self, 0int,
    {
        match self {
            Value::Int(i) => ValueView::Int(i),
            Value::Float(f) => ValueView::Float(f),
            Value::Bool(b) => ValueView::Bool(b),
            Value::String(s) => ValueView::String(s@),
            Value::Array(vs) => ValueView::Array(deep_seq(vs@)),
            Value::Struct(s) => ValueView::Struct(deep_fields(s.fields@)),
            Value::Function(f) => ValueView::Function(f),
            Value::Unit => ValueView::Unit,
        }
    }
}

/// The contents of a sequence of values.
pub open spec fn deep_seq(s: Seq<Value>) -> Seq<ValueView>
    decreases s, s.len(),
{
    if s.len() == 0 {
        Seq::empty()
    } else {
        deep_seq(s.drop_last()).push(s.last().deep())
    }
}

/// The contents of a sequence of named fields.
pub open spec fn deep_fields(s: Seq<(String, Value)>) -> Seq<(Seq<char>, ValueView)>
    decreases s, s.len(),
{
    if s.len() == 0 {
        Seq::empty()
    } else {
        deep_fields(s.drop_last()).push((s.last().0@, s.last().1.deep()))
    }
}


/// `deep_seq` maps each value to its contents.
pub proof fn lemma_deep_seq(s: Seq<Value>)
    ensures
        deep_seq(s).len() == s.len(),
        forall|i: int| 0 <= i < s.len() ==> #[trigger] deep_seq(s)[i] == s[i].deep(),
    decreases s.len(),
{
    if s.len() > 0 {
        lemma_deep_seq(s.drop_last());
    }
}

/// `deep_fields` maps each field to its name and contents.
pub proof fn lemma_deep_fields(s: Seq<(String, Value)>)
    ensures
        deep_fields(s).len() == s.len(),
        forall|i: int| 0 <= i < s.len() ==> #[trigger] deep_fields(s)[i] == (s[i].0@, s[i].1.deep()),
    decreases s.len(),
{
    if s.len() > 0 {
        lemma_deep_fields(s.drop_last());
    }
}

impl Value {
    /// A deep copy of the value.
    pub fn duplicate(&self) -> (r: Value)
        ensures
            r.deep() == self.deep(),
        decreases self,
    {
        match self {
            Value::Int(i) => Value::Int(*i),
            Value::Float(f) => Value::Float(*f),
            Value::Bool(b) => Value::Bool(*b),
            Value::String(s) => Value::String(s.clone()),
            Value::Array(vs) => Value::Array(duplicate_values(vs)),
            Value::Struct(st) => Value::Struct(st.duplicate()),
            Value::Function(f) => Value::Function(*f),
            Value::Unit => Value::Unit,
        }
    }
}

/// A deep copy of a list of values.
pub fn duplicate_values(vs: &Vec<Value>) -> (r: Vec<Value>)
    ensures
        deep_seq(r@) == deep_seq(vs@),
    decreases vs, 0nat,
{
    let mut out: Vec<Value> = Vec::new();
    let mut i: usize = 0;
    proof {
        lemma_deep_seq(vs@);
    }
    while i < vs.len()
        invariant
            i <= vs@.len(),
            out@.len() == i,
            deep_seq(vs@).len() == vs@.len(),
            forall|j: int| 0 <= j < vs@.len() ==> #[trigger] deep_seq(vs@)[j] == vs@[j].deep(),
            forall|j: int| 0 <= j < i ==> #[trigger] out@[j].deep() == vs@[j].deep(),
        decreases vs.len() - i,
    {
        proof {
            vstd::std_specs::vec::axiom_vec_index_decreases(*vs, i as int);
        }
        out.push(vs[i].duplicate());
        i = i + 1;
    }
    proof {
        lemma_deep_seq(out@);
        assert(deep_seq(out@) =~= deep_seq(vs@));
    }
    out
}

impl Struct {
    /// A struct with no fields.
    pub fn new() -> (r: Struct)
        ensures
            r.fields@.len() == 0,
    {
        Struct { fields: Vec::new() }
    }

    /// A deep copy of the struct.
    pub fn duplicate(&self) -> (r: Struct)
        ensures
            deep_fields(r.fields@) == deep_fields(self.fields@),
        decreases self, 0nat,
    {
        let mut out: Vec<(String, Value)> = Vec::new();
        let mut i: usize = 0;
        proof {
            lemma_deep_fields(self.fields@);
        }
        while i < self.fields.len()
            invariant
                i <= self.fields@.len(),
                out@.len() == i,
                deep_fields(self.fields@).len() == self.fields@.len(),
                forall|j: int| 0 <= j < self.fields@.len() ==> #[trigger] deep_fields(self.fields@)[j] == (
                    self.fields@[j].0@,
                    self.fields@[j].1.deep(),
                ),
                forall|j: int| 0 <= j < i ==> (#[trigger] out@[j]).0@ == self.fields@[j].0@ && out@[j].1.deep()
                    == self.fields@[j].1.deep(),
            decreases self.fields.len() - i,
        {
            proof {
                vstd::std_specs::vec::axiom_vec_index_decreases(self.fields, i as int);
            }
            out.push((self.fields[i].0.clone(), self.fields[i].1.duplicate()));
            i = i + 1;
        }
        proof {
            lemma_deep_fields(out@);
            assert(deep_fields(out@) =~= deep_fields(self.fields@));
        }
        Struct { fields: out }
    }
}

/// Whether two values have the same contents.
#[verifier::loop_isolation(false)]
pub fn values_equal(a: &Value, b: &Value) -> (r: bool)
    ensures
        r == (a.deep() == b.deep()),
    decreases a,
{
    match (a, b) {
        (Value::Int(x), Value::Int(y)) => *x == *y,
        (Value::Float(x), Value::Float(y)) => *x == *y,
        (Value::Bool(x), Value::Bool(y)) => *x == *y,
        (Value::String(x), Value::String(y)) => *x == *y,
        (Value::Function(x), Value::Function(y)) => *x == *y,
        (Value::Unit, Value::Unit) => true,
        (Value::Array(xs), Value::Array(ys)) => {
            proof {
                lemma_deep_seq(xs@);
                lemma_deep_seq(ys@);
            }
            if xs.len() != ys.len() {
                return false;
            }
            let mut i: usize = 0;
            while i < xs.len()
                invariant
                    i <= xs@.len(),
                    xs@.len() == ys@.len(),
                    forall|j: int| 0 <= j < i ==> xs@[j].deep() == ys@[j].deep(),
                decreases xs.len() - i,
            {
                proof {
                    vstd::std_specs::vec::axiom_vec_index_decreases(*xs, i as int);
                }
                if !values_equal(&xs[i], &ys[i]) {
                    assert(deep_seq(xs@)[i as int] != deep_seq(ys@)[i as int]);
                    return false;
                }
                i = i + 1;
            }
            assert(deep_seq(xs@) =~= deep_seq(ys@));
            true
        },
        (Value::Struct(xs), Value::Struct(ys)) => {
            proof {
                lemma_deep_fields(xs.fields@);
                lemma_deep_fields(ys.fields@);
            }
            if xs.fields.len() != ys.fields.len() {
                return false;
            }
            let mut i: usize = 0;
            while i < xs.fields.len()
                invariant
                    i <= xs.fields@.len(),
                    xs.fields@.len() == ys.fields@.len(),
                    forall|j: int| 0 <= j < i ==> xs.fields@[j].0@ == ys.fields@[j].0@ && xs.fields@[j].1.deep()
                        == ys.fields@[j].1.deep(),
                decreases xs.fields.len() - i,
            {
                proof {
                    vstd::std_specs::vec::axiom_vec_index_decreases(xs.fields, i as int);
                }
                let same_name = xs.fields[i].0 == ys.fields[i].0;
                if !same_name || !values_equal(&xs.fields[i].1, &ys.fields[i].1) {
                    assert(deep_fields(xs.fields@)[i as int] != deep_fields(ys.fields@)[i as int]);
                    return false;
                }
                i = i + 1;
            }
            assert(deep_fields(xs.fields@) =~= deep_fields(ys.fields@));
            true
        },
        _ => false,
    }
}


/// The contents of the first field named `name`, if any.
pub open spec fn field_value(fs: Seq<(Seq<char>, ValueView)>, name: Seq<char>) -> Option<ValueView>
    decreases fs.len(),
{
    if fs.len() == 0 {
        None
    } else if fs[0].0 == name {
        Some(fs[0].1)
    } else {
        field_value(fs.drop_first(), name)
    }
}

/// Fields before the first one named `name` do not matter to its lookup.
pub proof fn lemma_field_value_skip(fs: Seq<(Seq<char>, ValueView)>, i: int, name: Seq<char>)
    requires
        0 <= i <= fs.len(),
        forall|j: int| 0 <= j < i ==> (#[trigger] fs[j]).0 != name,
    ensures
        field_value(fs, name) == field_value(fs.subrange(i, fs.len() as int), name),
    decreases i,
{
    if i > 0 {
        assert(fs.drop_first().subrange(i - 1, fs.drop_first().len() as int) =~= fs.subrange(i, fs.len() as int));
        assert forall|j: int| 0 <= j < i - 1 implies (#[trigger] fs.drop_first()[j]).0 != name by {
            assert(fs.drop_first()[j] == fs[j + 1]);
        }
        lemma_field_value_skip(fs.drop_first(), i - 1, name);
    } else {
        assert(fs.subrange(0, fs.len() as int) =~= fs);
    }
}

/// The fields `fs` with the first one named `name` given the contents `x`, or
/// with a field `name` of contents `x` added at the end when there is none.
pub open spec fn update_field(fs: Seq<(Seq<char>, ValueView)>, name: Seq<char>, x: ValueView) -> Seq<(Seq<char>, ValueView)>
    decreases fs.len(),
{
    if fs.len() == 0 {
        seq![(name, x)]
    } else if fs[0].0 == name {
        fs.update(0, (name, x))
    } else {
        seq![fs[0]] + update_field(fs.drop_first(), name, x)
    }
}

/// `update_field` replaces the first field named `name`, at `i`, or adds one
/// when `i` is the length.
proof fn lemma_update_field(fs: Seq<(Seq<char>, ValueView)>, name: Seq<char>, x: ValueView, i: int)
    requires
        0 <= i <= fs.len(),
        forall|j: int| 0 <= j < i ==> (#[trigger] fs[j]).0 != name,
        i < fs.len() ==> fs[i].0 == name,
    ensures
        update_field(fs, name, x) == if i < fs.len() {
            fs.update(i, (name, x))
        } else {
            fs.push((name, x))
        },
    decreases i,
{
    if i == 0 {
        if fs.len() == 0 {
            assert(seq![(name, x)] =~= fs.push((name, x)));
        }
    } else {
        let rest = fs.drop_first();
        assert forall|j: int| 0 <= j < i - 1 implies (#[trigger] rest[j]).0 != name by {
            assert(rest[j] == fs[j + 1]);
        }
        lemma_update_field(rest, name, x, i - 1);
        assert(fs[0].0 != name);
        if i < fs.len() {
            assert(seq![fs[0]] + rest.update(i - 1, (name, x)) =~= fs.update(i, (name, x)));
        } else {
            assert(seq![fs[0]] + rest.push((name, x)) =~= fs.push((name, x)));
        }
    }
}

impl Struct {
    /// A copy of the value of the first field named `name`, if any.
    pub fn get_field(&self, name: &String) -> (r: Option<Value>)
        ensures
            r is Some <==> field_value(deep_fields(self.fields@), name@) is Some,
            r matches Some(v) ==> field_value(deep_fields(self.fields@), name@) == Some(v.deep()),
    {
        let ghost fs = deep_fields(self.fields@);
        proof {
            lemma_deep_fields(self.fields@);
        }
        let mut i: usize = 0;
        while i < self.fields.len()
            invariant
                i <= self.fields@.len(),
                fs == deep_fields(self.fields@),
                fs.len() == self.fields@.len(),
                forall|j: int| 0 <= j < self.fields@.len() ==> #[trigger] fs[j] == (self.fields@[j].0@, self.fields@[j].1.deep()),
                forall|j: int| 0 <= j < i ==> (#[trigger] fs[j]).0 != name@,
            decreases self.fields.len() - i,
        {
            if self.fields[i].0 == *name {
                proof {
                    lemma_field_value_skip(fs, i as int, name@);
                }
                return Some(self.fields[i].1.duplicate());
            }
            i = i + 1;
        }
        proof {
            lemma_field_value_skip(fs, i as int, name@);
        }
        None
    }

    /// Sets the first field named `name` to `value`, adding the field if there is none.
    pub fn set_field(&mut self, name: String, value: Value)
        ensures
            field_value(deep_fields(final(self).fields@), name@) == Some(value.deep()),
            deep_fields(final(self).fields@) == update_field(deep_fields(old(self).fields@), name@, value.deep()),
    {
        let ghost fs = deep_fields(self.fields@);
        proof {
            lemma_deep_fields(self.fields@);
        }
        let mut i: usize = 0;
        while i < self.fields.len()
            invariant
                i <= self.fields@.len(),
                fs == deep_fields(self.fields@),
                self.fields@ == old(self).fields@,
                fs.len() == self.fields@.len(),
                forall|j: int| 0 <= j < self.fields@.len() ==> #[trigger] fs[j] == (self.fields@[j].0@, self.fields@[j].1.deep()),
                forall|j: int| 0 <= j < i ==> (#[trigger] fs[j]).0 != name@,
            decreases self.fields.len() - i,
        {
            if self.fields[i].0 == name {
                let ghost vv = value.deep();
                let ghost nm = name@;
                self.fields.set(i, (name, value));
                proof {
                    lemma_deep_fields(self.fields@);
                    let nfs = deep_fields(self.fields@);
                    assert forall|j: int| 0 <= j < i implies (#[trigger] nfs[j]).0 != nm by {
                        assert(nfs[j] == fs[j]);
                    }
                    lemma_field_value_skip(nfs, i as int, nm);
                    lemma_update_field(fs, nm, vv, i as int);
                    assert(nfs =~= fs.update(i as int, (nm, vv)));
                }
                return;
            }
            i = i + 1;
        }
        let ghost vv = value.deep();
        let ghost nm = name@;
        self.fields.push((name, value));
        proof {
            lemma_deep_fields(self.fields@);
            let nfs = deep_fields(self.fields@);
            assert forall|j: int| 0 <= j < i implies (#[trigger] nfs[j]).0 != nm by {
                assert(nfs[j] == fs[j]);
            }
            lemma_field_value_skip(nfs, i as int, nm);
            lemma_update_field(fs, nm, vv, i as int);
            assert(nfs =~= fs.push((nm, vv)));
        }
    }
}

} // verus!
