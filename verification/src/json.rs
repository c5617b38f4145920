//! JSON values, and the reading and writing of JSON text.
use crate::order;
use crate::text;
use vstd::prelude::*;
use vstd::string::*;

verus! {

/// A JSON value. A number is kept as its text. Where an object names a field
/// twice, the last one counts.
pub enum Json {
    Null,
    Bool(bool),
    Number(String),
    Str(String),
    Array(Vec<Json>),
    Object(Vec<(String, Json)>),
}

/// What a JSON value stands for.
pub enum JsonTree {
    Null,
    Bool(bool),
    Number(Seq<char>),
    Str(Seq<char>),
    Array(Seq<JsonTree>),
    Object(Map<Seq<char>, JsonTree>),
}

/// The meaning of a JSON value.
pub open spec fn tree(j: Json) -> JsonTree
    decreases j,
{
    match j {
        Json::Null => JsonTree::Null,
        Json::Bool(b) => JsonTree::Bool(b),
        Json::Number(t) => JsonTree::Number(t@),
        Json::Str(s) => JsonTree::Str(s@),
        Json::Array(v) => JsonTree::Array(trees(v@)),
        Json::Object(v) => JsonTree::Object(fields(v@)),
    }
}

/// The meanings of a list of JSON values.
pub open spec fn trees(s: Seq<Json>) -> Seq<JsonTree>
    decreases s,
{
    if s.len() == 0 {
        Seq::empty()
    } else {
        trees(s.drop_last()).push(tree(s.last()))
    }
}

/// The fields of an object.
pub open spec fn fields(s: Seq<(String, Json)>) -> Map<Seq<char>, JsonTree>
    decreases s,
{
    if s.len() == 0 {
        Map::empty()
    } else {
        fields(s.drop_last()).insert(s.last().0@, tree(s.last().1))
    }
}

// ---------------------------------------------------------------------------
// Outside values
// ---------------------------------------------------------------------------
/// `serde_json::Value`, carried between the calls below.
#[verifier::external_type_specification]
#[verifier::external_body]
pub struct ExValue(serde_json::Value);

/// What a `serde_json::Value` holds: its scalars, the texts of its numbers as
/// they print, its lists in order and its objects by field name.
pub uninterp spec fn value_tree(v: serde_json::Value) -> JsonTree;

/// What `serde_json::from_str::<serde_json::Value>` makes of a text: the value
/// read, or the text of the error.
pub uninterp spec fn parsed_json(text: Seq<char>) -> Result<JsonTree, Seq<char>>;

/// What `serde_json::Value::to_string` writes of a value.
pub uninterp spec fn json_text(t: JsonTree) -> Seq<char>;

/// What `serde_json::from_str::<serde_json::Number>` makes of a text: how the
/// number that was read prints, if there is one.
pub uninterp spec fn number_reading(text: Seq<char>) -> Option<Seq<char>>;

/// A text that reads as `t`.
pub open spec fn read_ok(t: JsonTree) -> Result<JsonTree, Seq<char>> {
    Ok(t)
}

/// A text that reads as no JSON value, with the error text `e`.
pub open spec fn read_err(e: Seq<char>) -> Result<JsonTree, Seq<char>> {
    Err(e)
}

/// Whether `t` is an unsigned 64-bit number in decimal.
pub open spec fn is_decimal(t: Seq<char>) -> bool {
    exists|n: u64| t == #[trigger] text::decimal(n as nat)
}

/// One level of a `serde_json::Value`.
enum Node {
    Null,
    Bool(bool),
    Number(String),
    Str(String),
    Array(Vec<serde_json::Value>),
    Object(Vec<(String, serde_json::Value)>),
}

/// Whether `o` holds the number that prints as `t`.
spec fn is_number(o: Option<serde_json::Value>, t: Seq<char>) -> bool {
    o matches Some(v) && value_tree(v) == JsonTree::Number(t)
}

/// The meanings of a list of outside values.
spec fn value_trees(s: Seq<serde_json::Value>) -> Seq<JsonTree> {
    Seq::new(s.len(), |i: int| value_tree(s[i]))
}

/// The fields that a list of names and outside values makes.
spec fn value_fields(s: Seq<(String, serde_json::Value)>) -> Map<Seq<char>, JsonTree>
    decreases s.len(),
{
    if s.len() == 0 {
        Map::empty()
    } else {
        value_fields(s.drop_last()).insert(s.last().0@, value_tree(s.last().1))
    }
}

/// Whether no name occurs twice.
spec fn distinct_names(s: Seq<(String, serde_json::Value)>) -> bool {
    forall|i: int, j: int| 0 <= i < j < s.len() ==> (#[trigger] s[i]).0@ != (#[trigger] s[j]).0@
}

/// With distinct names each pair is found among the fields.
proof fn lemma_value_fields(s: Seq<(String, serde_json::Value)>, i: int)
    requires
        distinct_names(s),
        0 <= i < s.len(),
    ensures
        value_fields(s).dom().contains(s[i].0@),
        value_fields(s)[s[i].0@] == value_tree(s[i].1),
    decreases s.len(),
{
    if i < s.len() - 1 {
        assert(s.drop_last()[i] == s[i]);
        lemma_value_fields(s.drop_last(), i);
    }
}

/// With distinct names, another value for a name is another value for its field.
proof fn lemma_value_fields_set(
    s: Seq<(String, serde_json::Value)>,
    p: int,
    x: (String, serde_json::Value),
)
    requires
        distinct_names(s),
        0 <= p < s.len(),
        x.0@ == s[p].0@,
    ensures
        distinct_names(s.update(p, x)),
        value_fields(s.update(p, x)) == value_fields(s).insert(x.0@, value_tree(x.1)),
    decreases s.len(),
{
    let t = s.update(p, x);
    assert forall|i: int, j: int| 0 <= i < j < t.len() implies (#[trigger] t[i]).0@ != (
    #[trigger] t[j]).0@ by {
        assert(t[i].0@ == s[i].0@ && t[j].0@ == s[j].0@);
    }
    if p == s.len() - 1 {
        assert(t.drop_last() =~= s.drop_last());
    } else {
        lemma_value_fields_set(s.drop_last(), p, x);
        assert(t.drop_last() =~= s.drop_last().update(p, x));
        assert(s[p].0@ != s[s.len() - 1].0@);
    }
    assert(value_fields(t) =~= value_fields(s).insert(x.0@, value_tree(x.1)));
}

/// The fields that pairs make are finitely many.
proof fn lemma_value_fields_finite(s: Seq<(String, serde_json::Value)>)
    ensures
        value_fields(s).dom().finite(),
    decreases s.len(),
{
    if s.len() > 0 {
        lemma_value_fields_finite(s.drop_last());
    }
}

/// What one level and the values below it stand for.
spec fn node_tree(n: Node) -> JsonTree {
    match n {
        Node::Null => JsonTree::Null,
        Node::Bool(b) => JsonTree::Bool(b),
        Node::Number(t) => JsonTree::Number(t@),
        Node::Str(s) => JsonTree::Str(s@),
        Node::Array(v) => JsonTree::Array(value_trees(v@)),
        Node::Object(v) => JsonTree::Object(value_fields(v@)),
    }
}

/// `serde_json::from_str::<serde_json::Value>`: the value that the text holds,
/// or the text of the error. What either is on a given text is not stated,
/// only that it depends on the text alone.
#[verifier::external_body]
fn parse_value(text: &str) -> (r: Result<serde_json::Value, String>)
    ensures
        match r {
            Ok(v) => parsed_json(text@) == read_ok(value_tree(v)),
            Err(e) => parsed_json(text@) == read_err(e@),
        },
{
    match serde_json::from_str::<serde_json::Value>(text) {
        Ok(v) => Ok(v),
        Err(e) => Err(e.to_string()),
    }
}

/// `serde_json::Value::to_string`: depends on what the value holds alone, and
/// reads back as the same value unless it is nested deeper than the 127 levels
/// that `serde_json::from_str` accepts.
#[verifier::external_body]
fn value_text(v: &serde_json::Value) -> (r: String)
    ensures
        r@ == json_text(value_tree(*v)),
        nested_within(value_tree(*v), 127) ==> parsed_json(r@) == read_ok(value_tree(*v)),
{
    v.to_string()
}

/// The variants of `serde_json::Value`, taken apart by one level. A number
/// gives the text that `serde_json::Number` prints, which reads back as the
/// same number; an object names no field twice.
#[verifier::external_body]
fn open_value(v: serde_json::Value) -> (r: Node)
    ensures
        value_tree(v) == node_tree(r),
        r matches Node::Number(t) ==> number_reading(t@) == Some(t@),
        r matches Node::Object(m) ==> distinct_names(m@),
{
    match v {
        serde_json::Value::Null => Node::Null,
        serde_json::Value::Bool(b) => Node::Bool(b),
        serde_json::Value::Number(n) => Node::Number(n.to_string()),
        serde_json::Value::String(s) => Node::Str(s),
        serde_json::Value::Array(a) => Node::Array(a),
        serde_json::Value::Object(m) => Node::Object(m.into_iter().collect()),
    }
}

/// The variants of `serde_json::Value` other than its number, put together
/// from one level. The fields of an object have different names.
#[verifier::external_body]
fn make_value(n: Node) -> (r: serde_json::Value)
    requires
        !(n is Number),
        n matches Node::Object(m) ==> distinct_names(m@),
    ensures
        value_tree(r) == node_tree(n),
{
    match n {
        Node::Null | Node::Number(_) => serde_json::Value::Null,
        Node::Bool(b) => serde_json::Value::Bool(b),
        Node::Str(s) => serde_json::Value::String(s),
        Node::Array(a) => serde_json::Value::Array(a),
        Node::Object(m) => serde_json::Value::Object(m.into_iter().collect()),
    }
}

/// `serde_json::from_str::<serde_json::Number>`: the number that the text
/// holds, if it holds one. Decimals of 64 bits print as they were written;
/// of other numbers nothing more is stated.
#[verifier::external_body]
fn number_value(t: &str) -> (r: Option<serde_json::Value>)
    ensures
        (r is Some) == (number_reading(t@) is Some),
        r matches Some(v) ==> value_tree(v) == number_tree(t@),
        is_decimal(t@) ==> is_number(r, t@),
{
    match serde_json::from_str::<serde_json::Number>(t) {
        Ok(n) => Some(serde_json::Value::Number(n)),
        Err(_) => None,
    }
}

// ---------------------------------------------------------------------------
// Reading and writing
// ---------------------------------------------------------------------------
/// Whether `t` is nested at most `n` levels deep.
pub open spec fn nested_within(t: JsonTree, n: nat) -> bool
    decreases n,
{
    match t {
        JsonTree::Array(s) => n > 0 && forall|i: int|
            0 <= i < s.len() ==> nested_within(#[trigger] s[i], (n - 1) as nat),
        JsonTree::Object(m) => n > 0 && forall|k: Seq<char>|
            m.dom().contains(k) ==> nested_within(#[trigger] m[k], (n - 1) as nat),
        _ => true,
    }
}

/// How a number's text comes out when it is written: as the number that it
/// reads as, or as `null` where it reads as none.
pub open spec fn number_tree(t: Seq<char>) -> JsonTree {
    match number_reading(t) {
        Some(u) => JsonTree::Number(u),
        None => JsonTree::Null,
    }
}

/// `t` as it is written: each number as it reads.
pub open spec fn written(t: JsonTree) -> JsonTree
    decreases t,
{
    match t {
        JsonTree::Number(n) => number_tree(n),
        JsonTree::Array(s) => JsonTree::Array(
            Seq::new(
                s.len(),
                |i: int|
                    if 0 <= i < s.len() {
                        written(s[i])
                    } else {
                        JsonTree::Null
                    },
            ),
        ),
        JsonTree::Object(m) => JsonTree::Object(
            Map::new(
                |k: Seq<char>| m.dom().contains(k),
                |k: Seq<char>|
                    if m.dom().contains(k) {
                        written(m[k])
                    } else {
                        JsonTree::Null
                    },
            ),
        ),
        _ => t,
    }
}

fn json_of_value(v: serde_json::Value) -> (r: Json)
    ensures
        tree(r) == value_tree(v),
    decreases value_tree(v),
{
    let ghost whole = value_tree(v);
    match open_value(v) {
        Node::Null => Json::Null,
        Node::Bool(b) => Json::Bool(b),
        Node::Number(t) => Json::Number(t),
        Node::Str(s) => Json::Str(s),
        Node::Array(a) => {
            let mut out: Vec<Json> = Vec::new();
            let ghost all = a@;
            for x in it: a.into_iter()
                invariant
                    it.seq() == all,
                    whole == JsonTree::Array(value_trees(all)),
                    whole == value_tree(v),
                    trees(out@) == value_trees(all).take(it.index()),
            {
                assert(x == all[it.index()]);
                assert(value_trees(all)[it.index()] == value_tree(x));
                assert(decreases_to!(whole => whole->Array_0));
                assert(decreases_to!(whole->Array_0 => whole->Array_0[it.index()]));
                let ghost before = out@;
                out.push(json_of_value(x));
                assert(out@.drop_last() == before);
                assert(value_trees(all).take(it.index() + 1) == value_trees(all).take(
                    it.index(),
                ).push(value_tree(x)));
            }
            assert(value_trees(all).take(all.len() as int) == value_trees(all));
            Json::Array(out)
        },
        Node::Object(m) => {
            let mut out: Vec<(String, Json)> = Vec::new();
            let ghost all = m@;
            for x in it: m.into_iter()
                invariant
                    it.seq() == all,
                    whole == JsonTree::Object(value_fields(all)),
                    whole == value_tree(v),
                    distinct_names(all),
                    fields(out@) == value_fields(all.take(it.index())),
            {
                assert(x == all[it.index()]);
                proof {
                    lemma_value_fields(all, it.index());
                    lemma_value_fields_finite(all);
                }
                assert(decreases_to!(whole => whole->Object_0));
                assert(decreases_to!(whole->Object_0 => whole->Object_0[x.0@]));
                let ghost before = out@;
                out.push((x.0, json_of_value(x.1)));
                assert(out@.drop_last() == before);
                assert(all.take(it.index() + 1).drop_last() == all.take(it.index()));
            }
            assert(all.take(all.len() as int) == all);
            Json::Object(out)
        },
    }
}

/// Sets the field of a name.
fn set_field(list: &mut Vec<(String, serde_json::Value)>, k: String, v: serde_json::Value)
    requires
        distinct_names(old(list)@),
    ensures
        distinct_names(final(list)@),
        value_fields(final(list)@) == value_fields(old(list)@).insert(k@, value_tree(v)),
{
    let ghost before = list@;
    let n: usize = list.len();
    for i in 0..n
        invariant
            n == before.len(),
            list@ == before,
            before == old(list)@,
            distinct_names(before),
            forall|j: int| 0 <= j < i ==> (#[trigger] before[j]).0@ != k@,
    {
        if text::str_eq(list[i].0.as_str(), k.as_str()) {
            proof {
                lemma_value_fields_set(before, i as int, (k, v));
            }
            list.set(i, (k, v));
            return;
        }
    }
    list.push((k, v));
    assert(list@.drop_last() =~= before);
    assert forall|i: int, j: int| 0 <= i < j < list@.len() implies (#[trigger] list@[i]).0@ != (
    #[trigger] list@[j]).0@ by {
        assert(list@[i] == before[i]);
        if j < before.len() {
            assert(list@[j] == before[j]);
        }
    }
}

fn value_of(j: &Json) -> (r: serde_json::Value)
    ensures
        value_tree(r) == written(tree(*j)),
    decreases j,
{
    match j {
        Json::Null => make_value(Node::Null),
        Json::Bool(b) => make_value(Node::Bool(*b)),
        Json::Number(t) => match number_value(t.as_str()) {
            Some(v) => v,
            None => make_value(Node::Null),
        },
        Json::Str(s) => make_value(Node::Str(s.clone())),
        Json::Array(a) => {
            let mut out: Vec<serde_json::Value> = Vec::new();
            let ghost all = trees(a@);
            proof {
                lemma_trees(a@);
            }
            for i in 0..a.len()
                invariant
                    j == Json::Array(*a),
                    all == trees(a@),
                    all.len() == a@.len(),
                    forall|k: int| 0 <= k < a@.len() ==> all[k] == #[trigger] tree(a@[k]),
                    out@.len() == i,
                    forall|k: int| 0 <= k < i ==> value_tree(#[trigger] out@[k]) == written(all[k]),
            {
                assert(decreases_to!(j => j->Array_0));
                assert(decreases_to!(a => a@));
                assert(decreases_to!(a@ => a@[i as int]));
                out.push(value_of(&a[i]));
                assert(all[i as int] == tree(a@[i as int]));
            }
            assert(value_trees(out@) == written(JsonTree::Array(all))->Array_0);
            make_value(Node::Array(out))
        },
        Json::Object(m) => {
            let mut out: Vec<(String, serde_json::Value)> = Vec::new();
            for i in 0..m.len()
                invariant
                    j == Json::Object(*m),
                    distinct_names(out@),
                    value_fields(out@) == written(JsonTree::Object(fields(m@.take(i as int))))->Object_0,
            {
                assert(decreases_to!(j => j->Object_0));
                assert(decreases_to!(m => m@));
                assert(decreases_to!(m@ => m@[i as int]));
                assert(decreases_to!(m@[i as int] => m@[i as int].1));
                set_field(&mut out, m[i].0.clone(), value_of(&m[i].1));
                assert(m@.take(i + 1).drop_last() == m@.take(i as int));
                assert(value_fields(out@) == written(JsonTree::Object(fields(m@.take(i + 1))))->Object_0);
            }
            assert(m@.take(m@.len() as int) == m@);
            make_value(Node::Object(out))
        },
    }
}

/// The meanings of a list, one by one.
pub proof fn lemma_trees(s: Seq<Json>)
    ensures
        trees(s).len() == s.len(),
        forall|i: int| 0 <= i < s.len() ==> trees(s)[i] == #[trigger] tree(s[i]),
    decreases s.len(),
{
    if s.len() > 0 {
        let t = s.drop_last();
        lemma_trees(t);
        assert forall|i: int| 0 <= i < s.len() implies trees(s)[i] == #[trigger] tree(s[i]) by {
            if i < s.len() - 1 {
                assert(t[i] == s[i]);
                assert(trees(t)[i] == tree(t[i]));
            }
        }
    }
}

/// Reads a JSON text.
pub fn parse(text: &str) -> (r: Result<Json, String>)
    ensures
        match r {
            Ok(j) => parsed_json(text@) == read_ok(tree(j)),
            Err(e) => parsed_json(text@) == read_err(e@),
        },
{
    match parse_value(text) {
        Ok(v) => Ok(json_of_value(v)),
        Err(e) => Err(e),
    }
}

/// Writes a JSON value as text. The text reads back as what was written,
/// unless the value is nested too deep.
pub fn to_text(j: &Json) -> (r: String)
    ensures
        r@ == json_text(written(tree(*j))),
        nested_within(written(tree(*j)), 127) ==> parsed_json(r@) == read_ok(written(tree(*j))),
{
    value_text(&value_of(j))
}

// ---------------------------------------------------------------------------
// Looking into values
// ---------------------------------------------------------------------------
/// The field `k` of `t`, if `t` is an object that has it.
pub open spec fn field(t: JsonTree, k: Seq<char>) -> Option<JsonTree> {
    match t {
        JsonTree::Object(m) => if m.dom().contains(k) {
            Some(m[k])
        } else {
            None
        },
        _ => None,
    }
}

/// The text that `t` is, if it is one.
pub open spec fn tree_str(t: JsonTree) -> Option<Seq<char>> {
    match t {
        JsonTree::Str(s) => Some(s),
        _ => None,
    }
}

/// The truth value that `t` is, if it is one.
pub open spec fn tree_bool(t: JsonTree) -> Option<bool> {
    match t {
        JsonTree::Bool(b) => Some(b),
        _ => None,
    }
}

/// The unsigned 64-bit number that `t` is, if it is one.
pub open spec fn tree_u64(t: JsonTree) -> Option<nat> {
    match t {
        JsonTree::Number(n) => text::parsed_uint(n, u64::MAX as nat),
        _ => None,
    }
}

/// The signed 64-bit number that `t` is, if it is one.
pub open spec fn tree_i64(t: JsonTree) -> Option<int> {
    match t {
        JsonTree::Number(n) => if n.len() > 0 && n[0] == '-' {
            let d = n.skip(1);
            if d.len() > 0 && text::all_digits(d) && text::digits_value(d) <= 0x8000_0000_0000_0000 {
                Some(-text::digits_value(d))
            } else {
                None
            }
        } else {
            match text::parsed_uint(n, i64::MAX as nat) {
                Some(v) => Some(v as int),
                None => None,
            }
        },
        _ => None,
    }
}

/// The text in the field `k` of `t`, if there is one.
pub open spec fn field_str(t: JsonTree, k: Seq<char>) -> Option<Seq<char>> {
    match field(t, k) {
        Some(f) => tree_str(f),
        None => None,
    }
}

/// The unsigned number in the field `k` of `t`, if there is one.
pub open spec fn field_u64(t: JsonTree, k: Seq<char>) -> Option<nat> {
    match field(t, k) {
        Some(f) => tree_u64(f),
        None => None,
    }
}

/// The signed number in the field `k` of `t`, if there is one.
pub open spec fn field_i64(t: JsonTree, k: Seq<char>) -> Option<int> {
    match field(t, k) {
        Some(f) => tree_i64(f),
        None => None,
    }
}

/// The truth value in the field `k` of `t`, if there is one.
pub open spec fn field_bool(t: JsonTree, k: Seq<char>) -> Option<bool> {
    match field(t, k) {
        Some(f) => tree_bool(f),
        None => None,
    }
}

/// `t` with the field `k` set to `v`; anything but an object is left alone.
pub open spec fn with_field(t: JsonTree, k: Seq<char>, v: JsonTree) -> JsonTree {
    match t {
        JsonTree::Object(m) => JsonTree::Object(m.insert(k, v)),
        _ => t,
    }
}

/// `t` without the field `k`; anything but an object is left alone.
pub open spec fn without_field(t: JsonTree, k: Seq<char>) -> JsonTree {
    match t {
        JsonTree::Object(m) => JsonTree::Object(m.remove(k)),
        _ => t,
    }
}

/// An object without fields.
pub open spec fn no_fields() -> JsonTree {
    JsonTree::Object(Map::empty())
}

/// An object with one field; a field named again takes the later value.
pub open spec fn obj1(k1: Seq<char>, v1: JsonTree) -> JsonTree {
    with_field(no_fields(), k1, v1)
}

/// An object with two fields; a field named again takes the later value.
pub open spec fn obj2(k1: Seq<char>, v1: JsonTree, k2: Seq<char>, v2: JsonTree) -> JsonTree {
    with_field(obj1(k1, v1), k2, v2)
}

/// An object with three fields; a field named again takes the later value.
pub open spec fn obj3(k1: Seq<char>, v1: JsonTree, k2: Seq<char>, v2: JsonTree, k3: Seq<char>, v3: JsonTree) -> JsonTree {
    with_field(obj2(k1, v1, k2, v2), k3, v3)
}

/// An object with four fields; a field named again takes the later value.
pub open spec fn obj4(k1: Seq<char>, v1: JsonTree, k2: Seq<char>, v2: JsonTree, k3: Seq<char>, v3: JsonTree, k4: Seq<char>, v4: JsonTree) -> JsonTree {
    with_field(obj3(k1, v1, k2, v2, k3, v3), k4, v4)
}

/// An object with five fields; a field named again takes the later value.
pub open spec fn obj5(k1: Seq<char>, v1: JsonTree, k2: Seq<char>, v2: JsonTree, k3: Seq<char>, v3: JsonTree, k4: Seq<char>, v4: JsonTree, k5: Seq<char>, v5: JsonTree) -> JsonTree {
    with_field(obj4(k1, v1, k2, v2, k3, v3, k4, v4), k5, v5)
}

/// The number `n`.
pub open spec fn uint_tree(n: nat) -> JsonTree {
    JsonTree::Number(text::decimal(n))
}

/// The signed number `n`.
pub open spec fn int_tree(n: int) -> JsonTree {
    JsonTree::Number(text::signed_decimal(n))
}

/// A text, or nothing.
pub open spec fn opt_str_tree(o: Option<Seq<char>>) -> JsonTree {
    match o {
        Some(s) => JsonTree::Str(s),
        None => JsonTree::Null,
    }
}

/// A list of texts.
pub open spec fn str_trees(list: Seq<Seq<char>>) -> JsonTree {
    JsonTree::Array(Seq::new(list.len(), |i: int| JsonTree::Str(list[i])))
}

impl Json {
    /// The field `k`, if this is an object that has it.
    pub fn get(&self, k: &str) -> (r: Option<&Json>)
        ensures
            match r {
                Some(j) => field(tree(*self), k@) == Some(tree(*j)),
                None => field(tree(*self), k@) is None,
            },
    {
        match self {
            Json::Object(m) => {
                let mut i: usize = m.len();
                assert(m@.take(i as int) == m@);
                while i > 0
                    invariant
                        i <= m@.len(),
                        fields(m@).dom().contains(k@) == fields(m@.take(i as int)).dom().contains(k@),
                        fields(m@).dom().contains(k@) ==> fields(m@)[k@] == fields(
                            m@.take(i as int),
                        )[k@],
                        tree(*self) == JsonTree::Object(fields(m@)),
                    decreases i,
                {
                    assert(m@.take(i as int).drop_last() == m@.take(i - 1));
                    if text::str_eq(m[i - 1].0.as_str(), k) {
                        return Some(&m[i - 1].1);
                    }
                    i -= 1;
                }
                None
            },
            _ => None,
        }
    }

    /// The text that this is, if it is one.
    pub fn as_str(&self) -> (r: Option<&str>)
        ensures
            text::opt_view(r) == tree_str(tree(*self)),
    {
        match self {
            Json::Str(s) => Some(s.as_str()),
            _ => None,
        }
    }

    /// The truth value that this is, if it is one.
    pub fn as_bool(&self) -> (r: Option<bool>)
        ensures
            r == tree_bool(tree(*self)),
    {
        match self {
            Json::Bool(b) => Some(*b),
            _ => None,
        }
    }

    /// The unsigned 64-bit number that this is, if it is one.
    pub fn as_u64(&self) -> (r: Option<u64>)
        ensures
            r is Some <==> tree_u64(tree(*self)) is Some,
            r matches Some(n) ==> tree_u64(tree(*self)) == Some(n as nat),
    {
        match self {
            Json::Number(t) => text::parse_u64(t.as_str()),
            _ => None,
        }
    }

    /// The signed 64-bit number that this is, if it is one.
    pub fn as_i64(&self) -> (r: Option<i64>)
        ensures
            r is Some <==> tree_i64(tree(*self)) is Some,
            r matches Some(n) ==> tree_i64(tree(*self)) == Some(n as int),
    {
        match self {
            Json::Number(t) => {
                let s = t.as_str();
                let n: usize = s.unicode_len();
                if n > 0 && s.get_char(0) == '-' {
                    let d = s.substring_char(1, n);
                    assert(d@ == s@.skip(1));
                    if n > 1 && d.get_char(0) == '+' {
                        assert(!text::is_digit(d@[0]));
                        return None;
                    }
                    match text::parse_uint(d, 0x8000_0000_0000_0000) {
                        Some(v) => if v == 0x8000_0000_0000_0000 {
                            Some(i64::MIN)
                        } else {
                            Some(-(v as i64))
                        },
                        None => None,
                    }
                } else {
                    match text::parse_uint(s, i64::MAX as u64) {
                        Some(v) => Some(v as i64),
                        None => None,
                    }
                }
            },
            _ => None,
        }
    }

    /// Whether this is `null`.
    pub fn is_null(&self) -> (r: bool)
        ensures
            r == (tree(*self) == JsonTree::Null),
    {
        match self {
            Json::Null => true,
            _ => false,
        }
    }

    /// Whether this is an object.
    pub fn is_object(&self) -> (r: bool)
        ensures
            r == (tree(*self) is Object),
    {
        match self {
            Json::Object(_) => true,
            _ => false,
        }
    }

    /// The text in the field `k`, if there is one.
    pub fn str_field(&self, k: &str) -> (r: Option<&str>)
        ensures
            text::opt_view(r) == field_str(tree(*self), k@),
    {
        match self.get(k) {
            Some(j) => j.as_str(),
            None => None,
        }
    }

    /// The unsigned number in the field `k`, if there is one.
    pub fn u64_field(&self, k: &str) -> (r: Option<u64>)
        ensures
            r is Some <==> field_u64(tree(*self), k@) is Some,
            r matches Some(n) ==> field_u64(tree(*self), k@) == Some(n as nat),
    {
        match self.get(k) {
            Some(j) => j.as_u64(),
            None => None,
        }
    }

    /// The signed number in the field `k`, if there is one.
    pub fn i64_field(&self, k: &str) -> (r: Option<i64>)
        ensures
            r is Some <==> field_i64(tree(*self), k@) is Some,
            r matches Some(n) ==> field_i64(tree(*self), k@) == Some(n as int),
    {
        match self.get(k) {
            Some(j) => j.as_i64(),
            None => None,
        }
    }

    /// The truth value in the field `k`, if there is one.
    pub fn bool_field(&self, k: &str) -> (r: Option<bool>)
        ensures
            r == field_bool(tree(*self), k@),
    {
        match self.get(k) {
            Some(j) => j.as_bool(),
            None => None,
        }
    }

    /// This object with the field `k` set to `v`.
    pub fn with(self, k: &str, v: Json) -> (r: Json)
        ensures
            tree(r) == with_field(tree(self), k@, tree(v)),
    {
        match self {
            Json::Object(m) => {
                let mut m = m;
                let ghost before = m@;
                m.push((k.to_owned(), v));
                assert(m@.drop_last() == before);
                Json::Object(m)
            },
            other => other,
        }
    }

    /// This object without the field `k`.
    pub fn without(self, k: &str) -> (r: Json)
        ensures
            tree(r) == without_field(tree(self), k@),
    {
        match self {
            Json::Object(m) => {
                let mut out: Vec<(String, Json)> = Vec::new();
                let ghost all = m@;
                for x in it: m.into_iter()
                    invariant
                        it.seq() == all,
                        fields(out@) == fields(all.take(it.index())).remove(k@),
                {
                    assert(x == all[it.index()]);
                    let ghost before = out@;
                    assert(all.take(it.index() + 1).drop_last() == all.take(it.index()));
                    if !text::str_eq(x.0.as_str(), k) {
                        out.push(x);
                        assert(out@.drop_last() == before);
                    }
                    assert(fields(out@) == fields(all.take(it.index() + 1)).remove(k@));
                }
                assert(all.take(all.len() as int) == all);
                Json::Object(out)
            },
            other => other,
        }
    }

    /// A copy of this value.
    pub fn copy(&self) -> (r: Json)
        ensures
            tree(r) == tree(*self),
        decreases self,
    {
        match self {
            Json::Null => Json::Null,
            Json::Bool(b) => Json::Bool(*b),
            Json::Number(t) => Json::Number(t.clone()),
            Json::Str(s) => Json::Str(s.clone()),
            Json::Array(a) => {
                let mut out: Vec<Json> = Vec::new();
                for i in 0..a.len()
                    invariant
                        self == Json::Array(*a),
                        trees(out@) == trees(a@.take(i as int)),
                {
                    assert(decreases_to!(self => self->Array_0));
                    assert(decreases_to!(a => a@));
                    assert(decreases_to!(a@ => a@[i as int]));
                    let ghost before = out@;
                    out.push(a[i].copy());
                    assert(out@.drop_last() == before);
                    assert(a@.take(i + 1).drop_last() == a@.take(i as int));
                }
                assert(a@.take(a@.len() as int) == a@);
                Json::Array(out)
            },
            Json::Object(m) => {
                let mut out: Vec<(String, Json)> = Vec::new();
                for i in 0..m.len()
                    invariant
                        self == Json::Object(*m),
                        fields(out@) == fields(m@.take(i as int)),
                {
                    assert(decreases_to!(self => self->Object_0));
                    assert(decreases_to!(m => m@));
                    assert(decreases_to!(m@ => m@[i as int]));
                    assert(decreases_to!(m@[i as int] => m@[i as int].1));
                    let ghost before = out@;
                    out.push((m[i].0.clone(), m[i].1.copy()));
                    assert(out@.drop_last() == before);
                    assert(m@.take(i + 1).drop_last() == m@.take(i as int));
                }
                assert(m@.take(m@.len() as int) == m@);
                Json::Object(out)
            },
        }
    }
}

/// Whether `list` holds the text fields of `t`, sorted by name and each once.
pub open spec fn lists_text_fields(list: Seq<(String, String)>, t: JsonTree) -> bool {
    &&& forall|i: int|
        0 <= i < list.len() ==> field_str(t, (#[trigger] list[i]).0@) == Some(list[i].1@)
    &&& forall|i: int, j: int|
        0 <= i < j < list.len() ==> order::precedes(
            (#[trigger] list[i]).0@,
            (#[trigger] list[j]).0@,
        )
    &&& forall|k: Seq<char>| #[trigger]
        field_str(t, k) is Some ==> exists|i: int|
            0 <= i < list.len() && (#[trigger] list[i]).0@ == k
}

proof fn lemma_field_has_pair(s: Seq<(String, Json)>, k: Seq<char>)
    requires
        fields(s).dom().contains(k),
    ensures
        exists|i: int| 0 <= i < s.len() && (#[trigger] s[i]).0@ == k,
    decreases s.len(),
{
    if s.last().0@ == k {
        assert(s[s.len() - 1].0@ == k);
    } else {
        lemma_field_has_pair(s.drop_last(), k);
        let i = choose|i: int|
            0 <= i < s.drop_last().len() && (#[trigger] s.drop_last()[i]).0@ == k;
        assert(s[i].0@ == k);
    }
}

/// The text fields of an object, sorted by name; none of anything else.
pub fn text_fields(j: &Json) -> (r: Vec<(String, String)>)
    ensures
        lists_text_fields(r@, tree(*j)),
{
    let mut out: Vec<(String, String)> = Vec::new();
    match j {
        Json::Object(m) => {
            let mut all: Vec<String> = Vec::new();
            for i in 0..m.len()
                invariant
                    all@.len() == i,
                    forall|a: int| 0 <= a < i ==> (#[trigger] all@[a])@ == m@[a].0@,
            {
                all.push(m[i].0.clone());
            }
            let names = order::sorted_names(&all);
            for i in 0..names.len()
                invariant
                    order::sorted(names@),
                    forall|a: int|
                        0 <= a < out@.len() ==> field_str(tree(*j), (#[trigger] out@[a]).0@)
                            == Some(out@[a].1@),
                    forall|a: int, b: int|
                        0 <= a < b < out@.len() ==> order::precedes(
                            (#[trigger] out@[a]).0@,
                            (#[trigger] out@[b]).0@,
                        ),
                    forall|a: int, b: int|
                        0 <= a < out@.len() && i <= b < names@.len() ==> order::precedes(
                            (#[trigger] out@[a]).0@,
                            (#[trigger] names@[b])@,
                        ),
                    forall|a: int|
                        0 <= a < i && field_str(tree(*j), (#[trigger] names@[a])@) is Some
                            ==> exists|b: int|
                            0 <= b < out@.len() && (#[trigger] out@[b]).0@ == names@[a]@,
            {
                let ghost before = out@;
                match j.str_field(names[i].as_str()) {
                    Some(v) => {
                        out.push((names[i].clone(), v.to_owned()));
                    },
                    None => {},
                }
                proof {
                    assert forall|a: int|
                        0 <= a < i + 1 && field_str(
                            tree(*j),
                            (#[trigger] names@[a])@,
                        ) is Some implies exists|b: int|
                        0 <= b < out@.len() && (#[trigger] out@[b]).0@ == names@[a]@ by {
                        if a < i {
                            let b = choose|b: int|
                                0 <= b < before.len() && (#[trigger] before[b]).0@ == names@[a]@;
                            assert(out@[b].0@ == names@[a]@);
                        } else {
                            assert(out@[before.len() as int].0@ == names@[a]@);
                        }
                    }
                }
            }
            proof {
                assert forall|k: Seq<char>| #[trigger]
                    field_str(tree(*j), k) is Some implies exists|i: int|
                    0 <= i < out@.len() && (#[trigger] out@[i]).0@ == k by {
                    lemma_field_has_pair(m@, k);
                    let a = choose|a: int| 0 <= a < m@.len() && (#[trigger] m@[a]).0@ == k;
                    assert(all@[a]@ == k);
                    assert(text::lists(all@, k));
                    assert(text::lists(names@, k));
                    let b = choose|b: int| 0 <= b < names@.len() && (#[trigger] names@[b])@ == k;
                    assert(field_str(tree(*j), names@[b]@) is Some);
                }
            }
        },
        _ => {},
    }
    out
}

/// The texts in a list of JSON values, if all are texts.
pub open spec fn all_texts(s: Seq<JsonTree>) -> Option<Seq<Seq<char>>>
    decreases s.len(),
{
    if s.len() == 0 {
        Some(Seq::empty())
    } else {
        match (all_texts(s.drop_last()), tree_str(s.last())) {
            (Some(l), Some(t)) => Some(l.push(t)),
            _ => None,
        }
    }
}

/// The list of texts that `t` is, if it is one.
pub open spec fn text_list(t: JsonTree) -> Option<Seq<Seq<char>>> {
    match t {
        JsonTree::Array(s) => all_texts(s),
        _ => None,
    }
}

proof fn lemma_all_texts_fails(s: Seq<JsonTree>, n: int)
    requires
        0 <= n <= s.len(),
        all_texts(s.take(n)) is None,
    ensures
        all_texts(s) is None,
    decreases s.len(),
{
    if n == s.len() {
        assert(s.take(n) =~= s);
    } else {
        assert(s.drop_last().take(n) =~= s.take(n));
        lemma_all_texts_fails(s.drop_last(), n);
    }
}

/// The list of texts that a JSON value is, if it is one.
pub fn texts_of(j: &Json) -> (r: Option<Vec<String>>)
    ensures
        match r {
            Some(l) => text_list(tree(*j)) == Some(text::string_views(l@)),
            None => text_list(tree(*j)) is None,
        },
{
    match j {
        Json::Array(a) => {
            let mut out: Vec<String> = Vec::new();
            let ghost all = trees(a@);
            proof {
                lemma_trees(a@);
            }
            assert(all.take(0) =~= Seq::<JsonTree>::empty());
            assert(text::string_views(out@) =~= Seq::<Seq<char>>::empty());
            for i in 0..a.len()
                invariant
                    all == trees(a@),
                    all.len() == a@.len(),
                    tree(*j) == JsonTree::Array(all),
                    forall|k: int| 0 <= k < a@.len() ==> all[k] == #[trigger] tree(a@[k]),
                    all_texts(all.take(i as int)) == Some(text::string_views(out@)),
            {
                let ghost before = out@;
                let ghost head = all.take(i + 1);
                assert(head.drop_last() =~= all.take(i as int));
                assert(head.last() == tree(a@[i as int]));
                match a[i].as_str() {
                    Some(s) => {
                        out.push(s.to_owned());
                        assert(text::string_views(out@) =~= text::string_views(before).push(s@));
                    },
                    None => {
                        proof {
                            lemma_all_texts_fails(all, i + 1);
                        }
                        return None;
                    },
                }
            }
            assert(all.take(all.len() as int) =~= all);
            Some(out)
        },
        _ => None,
    }
}

/// An object without fields.
pub fn object() -> (r: Json)
    ensures
        tree(r) == no_fields(),
{
    Json::Object(Vec::new())
}

/// An object with one field.
pub fn object1(k1: &str, v1: Json) -> (r: Json)
    ensures
        tree(r) == obj1(k1@, tree(v1)),
{
    object().with(k1, v1)
}

/// An object with two fields.
pub fn object2(k1: &str, v1: Json, k2: &str, v2: Json) -> (r: Json)
    ensures
        tree(r) == obj2(k1@, tree(v1), k2@, tree(v2)),
{
    object1(k1, v1).with(k2, v2)
}

/// An object with three fields.
pub fn object3(k1: &str, v1: Json, k2: &str, v2: Json, k3: &str, v3: Json) -> (r: Json)
    ensures
        tree(r) == obj3(k1@, tree(v1), k2@, tree(v2), k3@, tree(v3)),
{
    object2(k1, v1, k2, v2).with(k3, v3)
}

/// An object with four fields.
pub fn object4(k1: &str, v1: Json, k2: &str, v2: Json, k3: &str, v3: Json, k4: &str, v4: Json) -> (r: Json)
    ensures
        tree(r) == obj4(k1@, tree(v1), k2@, tree(v2), k3@, tree(v3), k4@, tree(v4)),
{
    object3(k1, v1, k2, v2, k3, v3).with(k4, v4)
}

/// An object with five fields.
pub fn object5(k1: &str, v1: Json, k2: &str, v2: Json, k3: &str, v3: Json, k4: &str, v4: Json, k5: &str, v5: Json) -> (r: Json)
    ensures
        tree(r) == obj5(k1@, tree(v1), k2@, tree(v2), k3@, tree(v3), k4@, tree(v4), k5@, tree(v5)),
{
    object4(k1, v1, k2, v2, k3, v3, k4, v4).with(k5, v5)
}

/// A text as a JSON value.
pub fn str(s: &str) -> (r: Json)
    ensures
        tree(r) == JsonTree::Str(s@),
{
    Json::Str(s.to_owned())
}

/// A truth value as a JSON value.
pub fn boolean(b: bool) -> (r: Json)
    ensures
        tree(r) == JsonTree::Bool(b),
{
    Json::Bool(b)
}

/// A number as a JSON value.
pub fn uint(n: u64) -> (r: Json)
    ensures
        tree(r) == uint_tree(n as nat),
{
    Json::Number(text::u64_text(n))
}

/// A signed number as a JSON value.
pub fn signed(n: i64) -> (r: Json)
    ensures
        tree(r) == int_tree(n as int),
{
    Json::Number(text::i64_text(n))
}

/// A text or `null`.
pub fn opt_str(o: Option<&str>) -> (r: Json)
    ensures
        tree(r) == opt_str_tree(text::opt_view(o)),
{
    match o {
        Some(s) => str(s),
        None => Json::Null,
    }
}

/// A list of texts as a JSON value.
pub fn str_list(list: &Vec<String>) -> (r: Json)
    ensures
        tree(r) == str_trees(text::string_views(list@)),
{
    let mut out: Vec<Json> = Vec::new();
    for i in 0..list.len()
        invariant
            out@.len() == i,
            forall|k: int| 0 <= k < i ==> tree(#[trigger] out@[k]) == JsonTree::Str(list@[k]@),
    {
        out.push(str(list[i].as_str()));
    }
    proof {
        lemma_trees(out@);
        assert(trees(out@) == str_trees(text::string_views(list@))->Array_0) by {
            assert forall|i: int| 0 <= i < out@.len() implies trees(out@)[i] == str_trees(
                text::string_views(list@),
            )->Array_0[i] by {
                assert(trees(out@)[i] == tree(out@[i]));
            }
        }
    }
    Json::Array(out)
}

/// A field that is set has its value, and the others keep theirs; one that is
/// taken off is gone.
pub proof fn law_fields_are_set_one_by_one(t: JsonTree, k: Seq<char>, v: JsonTree, other: Seq<char>)
    requires
        t is Object,
    ensures
        field(with_field(t, k, v), k) == Some(v),
        other != k ==> field(with_field(t, k, v), other) == field(t, other),
        field(without_field(t, k), k) is None,
        other != k ==> field(without_field(t, k), other) == field(t, other),
        field(no_fields(), k) is None,
{
}

/// A number is read from its digits, a text and a truth value as they are, and
/// nothing from anything else.
pub proof fn law_values_are_read_as_they_are(n: u64, s: Seq<char>, b: bool)
    ensures
        tree_u64(uint_tree(n as nat)) == Some(n as nat),
        tree_str(JsonTree::Str(s)) == Some(s),
        tree_bool(JsonTree::Bool(b)) == Some(b),
        tree_u64(JsonTree::Str(s)) is None,
        tree_u64(JsonTree::Null) is None,
        tree_str(uint_tree(n as nat)) is None,
        tree_str(JsonTree::Null) is None,
        tree_bool(JsonTree::Str(s)) is None,
        tree_bool(JsonTree::Null) is None,
{
    text::law_decimal_reads_back(n as nat, u64::MAX as nat);
}

/// A list of texts is read where all of it is texts.
pub proof fn law_text_lists_hold_texts(list: Seq<JsonTree>)
    ensures
        (forall|i: int| 0 <= i < list.len() ==> #[trigger] list[i] is Str) ==> {
            &&& text_list(JsonTree::Array(list)) is Some
            &&& text_list(JsonTree::Array(list))->0.len() == list.len()
            &&& forall|i: int|
                0 <= i < list.len() ==> JsonTree::Str(#[trigger] text_list(JsonTree::Array(list))->0[i])
                    == list[i]
        },
        (exists|i: int| 0 <= i < list.len() && !(#[trigger] list[i] is Str)) ==> text_list(
            JsonTree::Array(list),
        ) is None,
    decreases list.len(),
{
    if list.len() > 0 {
        let t = list.drop_last();
        law_text_lists_hold_texts(t);
        if forall|i: int| 0 <= i < list.len() ==> #[trigger] list[i] is Str {
            assert forall|i: int| 0 <= i < t.len() implies #[trigger] t[i] is Str by {
                assert(t[i] == list[i]);
            }
            assert(list[list.len() - 1] is Str);
            assert forall|i: int| 0 <= i < list.len() implies JsonTree::Str(
                #[trigger] text_list(JsonTree::Array(list))->0[i],
            ) == list[i] by {
                if i < t.len() {
                    assert(t[i] == list[i]);
                    assert(JsonTree::Str(text_list(JsonTree::Array(t))->0[i]) == t[i]);
                }
            }
        }
        if exists|i: int| 0 <= i < list.len() && !(#[trigger] list[i] is Str) {
            let i = choose|i: int| 0 <= i < list.len() && !(#[trigger] list[i] is Str);
            if i < t.len() {
                assert(t[i] == list[i]);
            }
        }
    }
}

} // verus!
