//! The built-in growable vector of the interpreter.
//!
//! A vector is a struct value with two fields: `__DATA`, an array of its items,
//! and `__LEN`, an int holding its length. Each built-in function takes its
//! arguments as a list and returns the resulting value.

use vstd::prelude::*;

use std::collections::HashMap;

use strfmt::{strfmt, FmtError};

use crate::value::{
    deep_seq, field_value, lemma_deep_fields, lemma_deep_seq, values_equal, Struct, Value, ValueView,
};

verus! {

/// Errors of the vector built-ins.
pub enum VecError {
    /// The index, and the length of the vector.
    IndexOutOfRange(i64, usize),
}

/// Errors of a built-in call.
pub enum BuiltinError {
    /// The built-in got the wrong number of arguments.
    ArgCount { expected: usize, found: usize },
    Vec(VecError),
}

/// The number of arguments of a call (`None` counts as none).
pub open spec fn arg_count(args: Option<Vec<Value>>) -> nat {
    match args {
        Some(a) => a@.len(),
        None => 0,
    }
}

/// The items and recorded length of a vector value.
pub open spec fn vec_view(v: ValueView) -> Option<(Seq<ValueView>, i64)> {
    match v {
        ValueView::Struct(fs) => match (field_value(fs, "__DATA"@), field_value(fs, "__LEN"@)) {
            (Some(ValueView::Array(items)), Some(ValueView::Int(n))) => Some((items, n)),
            _ => None,
        },
        _ => None,
    }
}

/// `v` is a vector value.
pub open spec fn is_vec(v: Value) -> bool {
    vec_view(v.deep()) is Some
}

pub open spec fn vec_items(v: Value) -> Seq<ValueView> {
    (vec_view(v.deep())->0).0
}

pub open spec fn vec_len(v: Value) -> i64 {
    (vec_view(v.deep())->0).1
}

/// The item at `index`, or the error for an index out of range.
pub open spec fn get_result(items: Seq<ValueView>, index: i64) -> Result<ValueView, VecError> {
    if 0 <= index < items.len() {
        Ok(items[index as int])
    } else {
        Err(VecError::IndexOutOfRange(index, items.len() as usize))
    }
}

/// The items after removing the one at `index`, or the error for an index out of range.
pub open spec fn remove_result(items: Seq<ValueView>, index: i64) -> Result<Seq<ValueView>, VecError> {
    if 0 <= index < items.len() {
        Ok(items.remove(index as int))
    } else {
        Err(VecError::IndexOutOfRange(index, items.len() as usize))
    }
}

fn data_key() -> (r: String)
    ensures
        r@ == "__DATA"@,
{
    "__DATA".to_string()
}

fn len_key() -> (r: String)
    ensures
        r@ == "__LEN"@,
{
    "__LEN".to_string()
}

/// The vector value with these items and this recorded length.
fn make_vec(items: Vec<Value>, len: i64) -> (r: Value)
    ensures
        vec_view(r.deep()) == Some((deep_seq(items@), len)),
{
    let ghost iv = deep_seq(items@);
    let fields = vec![(data_key(), Value::Array(items)), (len_key(), Value::Int(len))];
    proof {
        reveal_strlit("__DATA");
        reveal_strlit("__LEN");
        lemma_deep_fields(fields@);
        let fs = crate::value::deep_fields(fields@);
        assert(fs[0] == ("__DATA"@, ValueView::Array(iv)));
        assert(fs[1] == ("__LEN"@, ValueView::Int(len)));
        assert(fs.drop_first()[0] == fs[1]);
        assert("__DATA"@ != "__LEN"@) by {
            assert("__DATA"@[2] != "__LEN"@[2]);
        }
        assert(field_value(fs, "__DATA"@) == Some(ValueView::Array(iv)));
        assert(field_value(fs.drop_first(), "__LEN"@) == Some(ValueView::Int(len)));
        assert(field_value(fs, "__LEN"@) == Some(ValueView::Int(len)));
    }
    let r = Value::Struct(Struct { fields });
    assert(r.deep() == ValueView::Struct(crate::value::deep_fields(fields@)));
    r
}

/// The items and recorded length of a vector value.
fn take_vec(v: &Value) -> (r: (Vec<Value>, i64))
    requires
        is_vec(*v),
    ensures
        deep_seq(r.0@) == vec_items(*v),
        r.1 == vec_len(*v),
{
    match v {
        Value::Struct(s) => {
            let d = s.get_field(&data_key());
            let l = s.get_field(&len_key());
            match (d, l) {
                (Some(Value::Array(items)), Some(Value::Int(n))) => (items, n),
                _ => {
                    proof {
                        assert(false);
                    }
                    (Vec::new(), 0)
                },
            }
        },
        _ => {
            proof {
                assert(false);
            }
            (Vec::new(), 0)
        },
    }
}

/// The arguments of a call that must have exactly `n` of them.
fn exact_args(n: usize, args: Option<Vec<Value>>) -> (r: Result<Vec<Value>, BuiltinError>)
    ensures
        r is Ok <==> (args is Some && arg_count(args) == n),
        r matches Ok(a) ==> args == Some(a),
        r matches Err(e) ==> e == (BuiltinError::ArgCount { expected: n, found: arg_count(args) as usize }),
{
    match args {
        Some(a) => {
            if a.len() == n {
                Ok(a)
            } else {
                let found = a.len();
                Err(BuiltinError::ArgCount { expected: n, found })
            }
        },
        None => Err(BuiltinError::ArgCount { expected: n, found: 0 }),
    }
}

/// `vec_T::new()`: an empty vector.
pub fn new(args: Option<Vec<Value>>) -> (r: Result<Value, BuiltinError>)
    ensures
        r is Ok <==> arg_count(args) == 0,
        r matches Ok(v) ==> vec_view(v.deep()) == Some((Seq::<ValueView>::empty(), 0i64)),
        r matches Err(e) ==> e == (BuiltinError::ArgCount { expected: 0, found: arg_count(args) as usize }),
{
    let found: usize = match &args {
        Some(a) => a.len(),
        None => 0,
    };
    if found != 0 {
        return Err(BuiltinError::ArgCount { expected: 0, found });
    }
    let items: Vec<Value> = Vec::new();
    proof {
        assert(deep_seq(items@) =~= Seq::<ValueView>::empty());
    }
    Ok(make_vec(items, 0))
}

/// `vec_T::len(v)`: the recorded length of `v`.
pub fn len(args: Option<Vec<Value>>) -> (r: Result<Value, BuiltinError>)
    requires
        args matches Some(a) ==> (a@.len() == 1 ==> (is_vec(a@[0]))),
    ensures
        r is Ok <==> (args is Some && arg_count(args) == 1),
        r matches Ok(v) ==> v.deep() == ValueView::Int(vec_len(args->0@[0])),
        r matches Err(e) ==> e == (BuiltinError::ArgCount { expected: 1, found: arg_count(args) as usize }),
{
    let mut args = exact_args(1, args)?;
    let vec_struct = args.pop().unwrap();
    let (_items, n) = take_vec(&vec_struct);
    Ok(Value::Int(n))
}

/// `vec_T::contains(v, x)`: whether some item of `v` equals `x`.
#[verifier::loop_isolation(false)]
pub fn contains(args: Option<Vec<Value>>) -> (r: Result<Value, BuiltinError>)
    requires
        args matches Some(a) ==> (a@.len() == 2 ==> (is_vec(a@[0]))),
    ensures
        r is Ok <==> (args is Some && arg_count(args) == 2),
        r matches Ok(v) ==> v.deep() == ValueView::Bool(vec_items(args->0@[0]).contains(args->0@[1].deep())),
        r matches Err(e) ==> e == (BuiltinError::ArgCount { expected: 2, found: arg_count(args) as usize }),
{
    let ghost a0 = args;
    let mut args = exact_args(2, args)?;
    let to_search = args.pop().unwrap();
    let vec_struct = args.pop().unwrap();
    let (items, _n) = take_vec(&vec_struct);
    proof {
        lemma_deep_seq(items@);
    }
    let ghost iv = deep_seq(items@);
    let mut i: usize = 0;
    while i < items.len()
        invariant
            i <= items@.len(),
            iv == deep_seq(items@),
            iv.len() == items@.len(),
            forall|j: int| 0 <= j < items@.len() ==> #[trigger] iv[j] == items@[j].deep(),
            forall|j: int| 0 <= j < i ==> iv[j] != to_search.deep(),
        decreases items.len() - i,
    {
        if values_equal(&items[i], &to_search) {
            assert(iv[i as int] == to_search.deep());
            return Ok(Value::Bool(true));
        }
        i = i + 1;
    }
    assert(!iv.contains(to_search.deep()));
    Ok(Value::Bool(false))
}

/// `vec_T::push(v, x)`: `v` with `x` appended and its length one more.
pub fn push(args: Option<Vec<Value>>) -> (r: Result<Value, BuiltinError>)
    requires
        args matches Some(a) ==> (a@.len() == 2 ==> (is_vec(a@[0]) && vec_len(a@[0]) < i64::MAX)),
    ensures
        r is Ok <==> (args is Some && arg_count(args) == 2),
        r matches Ok(v) ==> vec_view(v.deep()) == Some((
            vec_items(args->0@[0]).push(args->0@[1].deep()),
            (vec_len(args->0@[0]) + 1) as i64,
        )),
        r matches Err(e) ==> e == (BuiltinError::ArgCount { expected: 2, found: arg_count(args) as usize }),
{
    let mut args = exact_args(2, args)?;
    let to_insert = args.pop().unwrap();
    let vec_struct = args.pop().unwrap();
    let (mut items, n) = take_vec(&vec_struct);
    let ghost before = items@;
    let ghost x = to_insert.deep();
    items.push(to_insert);
    proof {
        lemma_deep_seq(before);
        lemma_deep_seq(items@);
        assert(deep_seq(items@) =~= deep_seq(before).push(x));
    }
    Ok(make_vec(items, n + 1))
}

/// `vec_T::insert(v, index, x)`: `v` with `x` inserted at `index` and its length
/// one more.
pub fn insert(args: Option<Vec<Value>>) -> (r: Result<Value, BuiltinError>)
    requires
        args matches Some(a) ==> (a@.len() == 3 ==> {
            &&& is_vec(a@[0])
            &&& vec_len(a@[0]) < i64::MAX
            &&& a@[1] matches Value::Int(i) && 0 <= i <= vec_items(a@[0]).len()
        }),
    ensures
        r is Ok <==> (args is Some && arg_count(args) == 3),
        r matches Ok(v) ==> (args->0@[1] matches Value::Int(i) && vec_view(v.deep()) == Some((
            vec_items(args->0@[0]).insert(i as int, args->0@[2].deep()),
            (vec_len(args->0@[0]) + 1) as i64,
        ))),
        r matches Err(e) ==> e == (BuiltinError::ArgCount { expected: 3, found: arg_count(args) as usize }),
{
    let mut args = exact_args(3, args)?;
    let to_insert = args.pop().unwrap();
    let index = args.pop().unwrap();
    let vec_struct = args.pop().unwrap();
    let index = match index {
        Value::Int(i) => i,
        _ => {
            proof {
                assert(false);
            }
            0
        },
    };
    let (mut items, n) = take_vec(&vec_struct);
    let ghost before = items@;
    let ghost x = to_insert.deep();
    proof {
        lemma_deep_seq(before);
    }
    assert(0 <= index <= before.len());
    assert(index <= items.len());
    let iu = index as usize;
    assert(iu == index);
    items.insert(iu, to_insert);
    proof {
        lemma_deep_seq(items@);
        assert(items@ == before.insert(index as int, to_insert));
        assert forall|j: int| 0 <= j < items@.len() implies #[trigger] deep_seq(items@)[j] == deep_seq(before).insert(index as int, x)[j] by {
            if j < index {
                assert(items@[j] == before[j]);
            } else if j == index {
                assert(items@[j] == to_insert);
            } else {
                assert(items@[j] == before[j - 1]);
            }
        }
        assert(deep_seq(items@) =~= deep_seq(before).insert(index as int, x));
    }
    Ok(make_vec(items, n + 1))
}

/// `vec_T::get(v, index)`: the item at `index`; an index below zero or past the
/// last item is an error.
pub fn get(args: Option<Vec<Value>>) -> (r: Result<Value, BuiltinError>)
    requires
        args matches Some(a) ==> (a@.len() == 2 ==> (is_vec(a@[0]) && a@[1] is Int)),
    ensures
        (args is Some && arg_count(args) == 2) ==> (args->0@[1] matches Value::Int(i) && match get_result(
            vec_items(args->0@[0]),
            i,
        ) {
            Ok(x) => r matches Ok(v) && v.deep() == x,
            Err(e) => r == Err::<Value, BuiltinError>(BuiltinError::Vec(e)),
        }),
        !(args is Some && arg_count(args) == 2) ==> r == Err::<Value, BuiltinError>(
            BuiltinError::ArgCount { expected: 2, found: arg_count(args) as usize },
        ),
{
    let mut args = exact_args(2, args)?;
    let index = args.pop().unwrap();
    let smpl_index = match index {
        Value::Int(i) => i,
        _ => {
            proof {
                assert(false);
            }
            0
        },
    };
    let vec_struct = args.pop().unwrap();
    let (items, _n) = take_vec(&vec_struct);
    proof {
        lemma_deep_seq(items@);
    }
    if smpl_index < 0 {
        return Err(BuiltinError::Vec(VecError::IndexOutOfRange(smpl_index, items.len())));
    }
    if smpl_index as u64 >= items.len() as u64 {
        return Err(BuiltinError::Vec(VecError::IndexOutOfRange(smpl_index, items.len())));
    }
    Ok(items[smpl_index as usize].duplicate())
}

/// `vec_T::remove(v, index)`: `v` without the item at `index` and its length one
/// less; an index below zero or past the last item is an error.
pub fn remove(args: Option<Vec<Value>>) -> (r: Result<Value, BuiltinError>)
    requires
        args matches Some(a) ==> (a@.len() == 2 ==> (is_vec(a@[0]) && a@[1] is Int && vec_len(a@[0]) > i64::MIN)),
    ensures
        (args is Some && arg_count(args) == 2) ==> (args->0@[1] matches Value::Int(i) && match remove_result(
            vec_items(args->0@[0]),
            i,
        ) {
            Ok(items) => r matches Ok(v) && vec_view(v.deep()) == Some((items, (vec_len(args->0@[0]) - 1) as i64)),
            Err(e) => r == Err::<Value, BuiltinError>(BuiltinError::Vec(e)),
        }),
        !(args is Some && arg_count(args) == 2) ==> r == Err::<Value, BuiltinError>(
            BuiltinError::ArgCount { expected: 2, found: arg_count(args) as usize },
        ),
{
    let mut args = exact_args(2, args)?;
    let index = args.pop().unwrap();
    let smpl_index = match index {
        Value::Int(i) => i,
        _ => {
            proof {
                assert(false);
            }
            0
        },
    };
    let vec_struct = args.pop().unwrap();
    let (mut items, n) = take_vec(&vec_struct);
    let ghost before = items@;
    proof {
        lemma_deep_seq(before);
    }
    if smpl_index < 0 {
        return Err(BuiltinError::Vec(VecError::IndexOutOfRange(smpl_index, items.len())));
    }
    if smpl_index as u64 >= items.len() as u64 {
        return Err(BuiltinError::Vec(VecError::IndexOutOfRange(smpl_index, items.len())));
    }
    let _removed = items.remove(smpl_index as usize);
    proof {
        lemma_deep_seq(items@);
        assert(deep_seq(items@) =~= deep_seq(before).remove(smpl_index as int));
    }
    Ok(make_vec(items, n - 1))
}


/// Reading at the old length after a push gives back the pushed item.
pub proof fn law_get_after_push(items: Seq<ValueView>, x: ValueView)
    requires
        items.len() < i64::MAX,
    ensures
        get_result(items.push(x), items.len() as i64) == Ok::<ValueView, VecError>(x),
{
}

/// A push leaves the items before it readable as they were.
pub proof fn law_push_keeps_items(items: Seq<ValueView>, x: ValueView, i: i64)
    requires
        0 <= i < items.len(),
    ensures
        get_result(items.push(x), i) == get_result(items, i),
{
}

/// Removing at the index of an insertion undoes it.
pub proof fn law_remove_undoes_insert(items: Seq<ValueView>, i: i64, x: ValueView)
    requires
        0 <= i <= items.len(),
    ensures
        remove_result(items.insert(i as int, x), i) == Ok::<Seq<ValueView>, VecError>(items),
{
    assert(items.insert(i as int, x).remove(i as int) =~= items);
}

/// A vector contains what was pushed onto it.
pub proof fn law_contains_after_push(items: Seq<ValueView>, x: ValueView)
    ensures
        items.push(x).contains(x),
{
    assert(items.push(x)[items.len() as int] == x);
}

/// The recorded length follows the number of items: push and insert add one,
/// remove takes one away.
pub proof fn law_len_follows_items(items: Seq<ValueView>, n: i64, i: i64, x: ValueView)
    requires
        n == items.len(),
        n < i64::MAX,
    ensures
        items.push(x).len() == n + 1,
        0 <= i <= items.len() ==> items.insert(i as int, x).len() == n + 1,
        remove_result(items, i) matches Ok(rest) ==> rest.len() == n - 1,
{
}


#[verifier::external_type_specification]
#[verifier::external_body]
pub struct ExFmtError(FmtError);

/// The text that `strfmt::strfmt` produces from `template` when the one variable
/// `key` has the value `value`, or `None` when it reports an error.
pub uninterp spec fn strfmt_result(template: Seq<char>, key: Seq<char>, value: Seq<char>) -> Option<Seq<char>>;

/// `strfmt::strfmt` with a single variable: formats `template`, replacing each
/// `{key}` by `value`. Its result depends on its arguments alone.
#[verifier::external_body]
fn strfmt_one(template: &str, key: &str, value: &str) -> (r: Result<String, FmtError>)
    ensures
        r is Ok <==> strfmt_result(template@, key@, value@) is Some,
        r matches Ok(s) ==> strfmt_result(template@, key@, value@) == Some(s@),
{
    let mut vars: HashMap<String, String> = HashMap::new();
    vars.insert(key.to_string(), value.to_string());
    strfmt(template, &vars)
}

/// The template of the name of the vector module for an item type.
pub fn mod_vec_template() -> (r: &'static str)
    ensures
        r@ == "vec_{item_type}"@,
{
    "vec_{item_type}"
}

/// The template variable that holds the item type.
pub fn item_type_key() -> (r: &'static str)
    ensures
        r@ == "item_type"@,
{
    "item_type"
}

/// Formatting a module name failed.
pub struct FormatError;

/// The name of the vector module for `item_type`, such as `vec_int` for `int`.
pub fn vec_module_name(item_type: &str) -> (r: Result<String, FormatError>)
    ensures
        r is Ok <==> strfmt_result("vec_{item_type}"@, "item_type"@, item_type@) is Some,
        r matches Ok(s) ==> strfmt_result("vec_{item_type}"@, "item_type"@, item_type@) == Some(s@),
{
    match strfmt_one(mod_vec_template(), item_type_key(), item_type) {
        Ok(s) => Ok(s),
        Err(_e) => Err(FormatError),
    }
}

/// The vector built-ins.
#[derive(Clone, Copy, Debug, PartialEq, Eq, Structural)]
pub enum VecBuiltin {
    New,
    Len,
    Contains,
    Push,
    Insert,
    Get,
    Remove,
}

/// The built-in functions registered with an interpreter, by module and name.
pub struct BuiltinMap {
    pub entries: Vec<(String, String, VecBuiltin)>,
}

/// The built-in registered as `module::name` most recently.
pub open spec fn registered(entries: Seq<(String, String, VecBuiltin)>, module: Seq<char>, name: Seq<char>) -> Option<VecBuiltin>
    decreases entries.len(),
{
    if entries.len() == 0 {
        None
    } else if entries.last().0@ == module && entries.last().1@ == name {
        Some(entries.last().2)
    } else {
        registered(entries.drop_last(), module, name)
    }
}

impl BuiltinMap {
    pub fn new() -> (r: BuiltinMap)
        ensures
            r.entries@.len() == 0,
    {
        BuiltinMap { entries: Vec::new() }
    }

    /// The built-in registered as `module::name`.
    pub fn get_builtin(&self, module: &String, name: &String) -> (r: Option<VecBuiltin>)
        ensures
            r == registered(self.entries@, module@, name@),
    {
        let mut i = self.entries.len();
        assert(self.entries@.subrange(0, i as int) =~= self.entries@);
        while i > 0
            invariant
                i <= self.entries@.len(),
                registered(self.entries@, module@, name@) == registered(self.entries@.subrange(0, i as int), module@, name@),
            decreases i,
        {
            assert(self.entries@.subrange(0, i as int).drop_last() =~= self.entries@.subrange(0, i - 1));
            if self.entries[i - 1].0 == *module && self.entries[i - 1].1 == *name {
                return Some(self.entries[i - 1].2);
            }
            i = i - 1;
        }
        None
    }

    /// Registers `builtin` as `module::name`; returns the built-in registered there before.
    pub fn insert_builtin(&mut self, module: &str, name: &str, builtin: VecBuiltin) -> (r: Option<VecBuiltin>)
        ensures
            r == registered(old(self).entries@, module@, name@),
            registered(final(self).entries@, module@, name@) == Some(builtin),
            forall|m: Seq<char>, n: Seq<char>| !(m == module@ && n == name@) ==> #[trigger] registered(final(self).entries@, m, n)
                == registered(old(self).entries@, m, n),
    {
        let m = module.to_owned();
        let n = name.to_owned();
        let previous = self.get_builtin(&m, &n);
        self.entries.push((m, n, builtin));
        assert(self.entries@.drop_last() =~= old(self).entries@);
        previous
    }
}

/// Registers the vector built-ins for `item_type` in the module named for it.
pub fn add(vm: &mut BuiltinMap, item_type: &str) -> (r: Result<(), FormatError>)
    ensures
        r is Ok <==> strfmt_result("vec_{item_type}"@, "item_type"@, item_type@) is Some,
        r is Ok ==> {
            let m = strfmt_result("vec_{item_type}"@, "item_type"@, item_type@)->0;
            &&& registered(final(vm).entries@, m, "new"@) == Some(VecBuiltin::New)
            &&& registered(final(vm).entries@, m, "len"@) == Some(VecBuiltin::Len)
            &&& registered(final(vm).entries@, m, "contains"@) == Some(VecBuiltin::Contains)
            &&& registered(final(vm).entries@, m, "push"@) == Some(VecBuiltin::Push)
            &&& registered(final(vm).entries@, m, "insert"@) == Some(VecBuiltin::Insert)
            &&& registered(final(vm).entries@, m, "get"@) == Some(VecBuiltin::Get)
            &&& registered(final(vm).entries@, m, "remove"@) == Some(VecBuiltin::Remove)
        },
        r is Err ==> final(vm).entries@ == old(vm).entries@,
{
    let mod_name = vec_module_name(item_type)?;
    proof {
        reveal_strlit("new");
        reveal_strlit("len");
        reveal_strlit("contains");
        reveal_strlit("push");
        reveal_strlit("insert");
        reveal_strlit("get");
        reveal_strlit("remove");
        assert("new"@[0] == 'n' && "len"@[0] == 'l' && "get"@[0] == 'g');
        assert("insert"@[0] == 'i' && "remove"@[0] == 'r');
        assert("new"@.len() == 3 && "len"@.len() == 3 && "get"@.len() == 3 && "push"@.len() == 4);
        assert("insert"@.len() == 6 && "remove"@.len() == 6 && "contains"@.len() == 8);
    }
    vm.insert_builtin(mod_name.as_str(), "new", VecBuiltin::New);
    vm.insert_builtin(mod_name.as_str(), "len", VecBuiltin::Len);
    vm.insert_builtin(mod_name.as_str(), "contains", VecBuiltin::Contains);
    vm.insert_builtin(mod_name.as_str(), "push", VecBuiltin::Push);
    vm.insert_builtin(mod_name.as_str(), "insert", VecBuiltin::Insert);
    vm.insert_builtin(mod_name.as_str(), "get", VecBuiltin::Get);
    vm.insert_builtin(mod_name.as_str(), "remove", VecBuiltin::Remove);
    Ok(())
}

} // verus!
