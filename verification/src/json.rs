//! JSON values, as `serde_json` builds and writes them.
//!
//! A value is known by the compact text that `serde_json` writes for it. The
//! functions here build values bottom-up and say what that text is.

use vstd::prelude::*;
use vstd::utf8::encode_utf8;

use crate::text::{decimal, hex_digit, join};

verus! {

/// A JSON value of `serde_json`.
#[verifier::external_type_specification]
#[verifier::external_body]
pub struct ExValue(serde_json::Value);

/// The fields of a JSON object of `serde_json`.
#[verifier::external_type_specification]
#[verifier::external_body]
#[verifier::reject_recursive_types(K)]
#[verifier::reject_recursive_types(V)]
pub struct ExMap<K, V>(serde_json::Map<K, V>);

/// What a JSON value holds: the characters of its compact text.
pub uninterp spec fn json_text(value: serde_json::Value) -> Seq<char>;

/// What the fields of a JSON object hold: for each key the compact text of its
/// value.
pub uninterp spec fn json_fields(fields: serde_json::Map<String, serde_json::Value>) -> Map<Seq<char>, Seq<char>>;

/// How a character is written in a JSON string.
pub open spec fn escaped(c: char) -> Seq<char> {
    if c == '"' || c == '\\' {
        seq!['\\', c]
    } else if c == '\x08' {
        seq!['\\', 'b']
    } else if c == '\t' {
        seq!['\\', 't']
    } else if c == '\n' {
        seq!['\\', 'n']
    } else if c == '\x0c' {
        seq!['\\', 'f']
    } else if c == '\r' {
        seq!['\\', 'r']
    } else if c as int <= 0x1f {
        seq!['\\', 'u', '0', '0', hex_digit(c as int / 16), hex_digit(c as int % 16)]
    } else {
        seq![c]
    }
}

/// The compact text of a JSON string: `s` in quotes, escaped where JSON asks for it.
pub open spec fn json_string(s: Seq<char>) -> Seq<char> {
    seq!['"'] + s.map_values(|c: char| escaped(c)).flatten() + seq!['"']
}

/// No fields at all.
pub open spec fn empty_fields() -> Map<Seq<char>, Seq<char>> {
    Map::empty()
}

/// `a` comes before `b` in the order of code points.
pub open spec fn precedes(a: Seq<char>, b: Seq<char>) -> bool {
    exists|i: int|
        0 <= i <= a.len() && i < b.len() && #[trigger] a.take(i) == b.take(i) && (i == a.len()
            || a[i] < b[i])
}

/// `keys` are the keys of `fields`, each once, in increasing order.
pub open spec fn in_key_order(keys: Seq<Seq<char>>, fields: Map<Seq<char>, Seq<char>>) -> bool {
    &&& keys.to_set() == fields.dom()
    &&& forall|i: int, j: int| 0 <= i < j < keys.len() ==> precedes(#[trigger] keys[i], #[trigger] keys[j])
}

/// The compact text of an object with the given fields: in the order of its keys.
pub open spec fn object_text(fields: Map<Seq<char>, Seq<char>>) -> Seq<char> {
    let keys = choose|keys: Seq<Seq<char>>| in_key_order(keys, fields);
    seq!['{'] + join(
        keys.map_values(|k: Seq<char>| json_string(k) + seq![':'] + fields[k]),
        seq![','],
    ) + seq!['}']
}

/// The compact text of an array with the given elements.
pub open spec fn array_text(items: Seq<Seq<char>>) -> Seq<char> {
    seq!['['] + join(items, seq![',']) + seq![']']
}

/// The texts of `items`, in order.
pub open spec fn json_texts(items: Seq<serde_json::Value>) -> Seq<Seq<char>> {
    items.map_values(|v: serde_json::Value| json_text(v))
}

/// `serde_json::Map::new`: no fields.
#[verifier::external_body]
pub(crate) fn no_fields() -> (r: serde_json::Map<String, serde_json::Value>)
    ensures
        json_fields(r) == empty_fields(),
{
    serde_json::Map::new()
}

/// `serde_json::Map::insert`: the field `key` becomes `value`, whatever it was; the
/// other fields stay.
#[verifier::external_body]
pub(crate) fn insert_field(
    fields: &mut serde_json::Map<String, serde_json::Value>,
    key: String,
    value: serde_json::Value,
)
    ensures
        json_fields(*final(fields)) == json_fields(*old(fields)).insert(key@, json_text(value)),
{
    fields.insert(key, value);
}

/// `serde_json::Value::from` on a string.
#[verifier::external_body]
pub(crate) fn string_value(s: &str) -> (r: serde_json::Value)
    ensures
        json_text(r) == json_string(s@),
{
    serde_json::Value::from(s)
}

/// `serde_json::Value::from` on a number: its decimal digits.
#[verifier::external_body]
pub(crate) fn number_value(n: usize) -> (r: serde_json::Value)
    ensures
        json_text(r) == decimal(n as nat),
{
    serde_json::Value::from(n)
}

/// `serde_json::Value::from` on a vector of values: the array of them.
#[verifier::external_body]
pub(crate) fn array_value(items: Vec<serde_json::Value>) -> (r: serde_json::Value)
    ensures
        json_text(r) == array_text(json_texts(items@)),
{
    serde_json::Value::from(items)
}

/// `serde_json::Value::from` on fields: the object of them, its keys in increasing
/// order (the fields are held in a `BTreeMap`).
#[verifier::external_body]
pub(crate) fn object_value(fields: serde_json::Map<String, serde_json::Value>) -> (r: serde_json::Value)
    ensures
        json_text(r) == object_text(json_fields(fields)),
{
    serde_json::Value::from(fields)
}

/// `serde_json::to_vec` on a value: its compact text in UTF-8. It does not fail on a
/// value, whose keys are all strings.
#[verifier::external_body]
pub(crate) fn value_bytes(value: &serde_json::Value) -> (r: Option<Vec<u8>>)
    ensures
        r is Some && r->0@ == encode_utf8(json_text(*value)),
{
    serde_json::to_vec(value).ok()
}

/// Of two different texts at most one precedes the other, and none precedes itself.
proof fn lemma_precedes_is_asymmetric(a: Seq<char>, b: Seq<char>)
    requires
        precedes(a, b),
    ensures
        !precedes(b, a),
{
    if precedes(b, a) {
        let i = choose|i: int|
            0 <= i <= a.len() && i < b.len() && #[trigger] a.take(i) == b.take(i) && (i == a.len()
                || a[i] < b[i]);
        let j = choose|j: int|
            0 <= j <= b.len() && j < a.len() && #[trigger] b.take(j) == a.take(j) && (j == b.len()
                || b[j] < a[j]);
        if i < j {
            assert(a.take(j)[i] == b.take(j)[i]);
        } else if j < i {
            assert(a.take(i)[j] == b.take(i)[j]);
        }
    }
}

/// The fields of an object come in one order only, so that an object has one text.
pub proof fn law_key_order_is_unique(
    a: Seq<Seq<char>>,
    b: Seq<Seq<char>>,
    fields: Map<Seq<char>, Seq<char>>,
)
    requires
        in_key_order(a, fields),
        in_key_order(b, fields),
    ensures
        a == b,
    decreases a.len(),
{
    if a.len() == 0 {
        if b.len() > 0 {
            assert(b.to_set().contains(b[0]));
            assert(a.to_set().contains(b[0]));
        }
        assert(a =~= b);
    } else {
        assert(a.to_set().contains(a.last()));
        assert(b.to_set().contains(a.last()));
        assert(b.len() > 0);
        assert(b.to_set().contains(b.last()));
        assert(a.to_set().contains(b.last()));
        if a.last() != b.last() {
            let i = choose|i: int| 0 <= i < a.len() && a[i] == b.last();
            let j = choose|j: int| 0 <= j < b.len() && b[j] == a.last();
            assert(precedes(a[i], a[a.len() - 1]));
            assert(precedes(b[j], b[b.len() - 1]));
            lemma_precedes_is_asymmetric(a.last(), b.last());
        }
        lemma_without_last(a, fields);
        lemma_without_last(b, fields);
        law_key_order_is_unique(a.drop_last(), b.drop_last(), fields.remove(a.last()));
        assert(a =~= a.drop_last().push(a.last()));
        assert(b =~= b.drop_last().push(b.last()));
    }
}

/// Without the last of its keys, an order of keys is one of the remaining fields.
proof fn lemma_without_last(keys: Seq<Seq<char>>, fields: Map<Seq<char>, Seq<char>>)
    requires
        in_key_order(keys, fields),
        keys.len() > 0,
    ensures
        in_key_order(keys.drop_last(), fields.remove(keys.last())),
{
    let front = keys.drop_last();
    assert forall|k: Seq<char>| front.to_set().contains(k) == fields.remove(
        keys.last(),
    ).dom().contains(k) by {
        if front.to_set().contains(k) {
            let i = choose|i: int| 0 <= i < front.len() && front[i] == k;
            assert(keys[i] == k);
            assert(keys.to_set().contains(k));
            assert(precedes(keys[i], keys[keys.len() - 1]));
            if k == keys.last() {
                lemma_precedes_is_asymmetric(k, k);
            }
        }
        if fields.remove(keys.last()).dom().contains(k) {
            assert(keys.to_set().contains(k));
            let i = choose|i: int| 0 <= i < keys.len() && keys[i] == k;
            assert(front[i] == k);
        }
    }
    assert(front.to_set() =~= fields.remove(keys.last()).dom());
    assert forall|i: int, j: int| 0 <= i < j < front.len() implies precedes(
        #[trigger] front[i],
        #[trigger] front[j],
    ) by {
        assert(precedes(keys[i], keys[j]));
    }
}

/// Of two different texts one precedes the other.
proof fn lemma_precedes_is_total(a: Seq<char>, b: Seq<char>)
    requires
        a != b,
    ensures
        precedes(a, b) || precedes(b, a),
    decreases a.len(),
{
    if a.len() == 0 || b.len() == 0 {
        assert(a.take(0) =~= b.take(0));
        if a.len() == 0 && b.len() == 0 {
            assert(a =~= b);
        }
    } else if a[0] != b[0] {
        assert(a.take(0) =~= b.take(0));
    } else {
        let x = a.drop_first();
        let y = b.drop_first();
        assert(a =~= seq![a[0]] + x);
        assert(b =~= seq![b[0]] + y);
        lemma_precedes_is_total(x, y);
        if precedes(x, y) {
            lemma_same_first(a, b);
        } else {
            lemma_same_first(b, a);
        }
    }
}

/// Texts that start alike come in the order of what follows.
proof fn lemma_same_first(a: Seq<char>, b: Seq<char>)
    requires
        a.len() > 0,
        b.len() > 0,
        a[0] == b[0],
        precedes(a.drop_first(), b.drop_first()),
    ensures
        precedes(a, b),
{
    let x = a.drop_first();
    let y = b.drop_first();
    let i = choose|i: int|
        0 <= i <= x.len() && i < y.len() && #[trigger] x.take(i) == y.take(i) && (i == x.len()
            || x[i] < y[i]);
    assert(a.take(i + 1) =~= seq![a[0]] + x.take(i));
    assert(b.take(i + 1) =~= seq![b[0]] + y.take(i));
    if i < x.len() {
        assert(a[i + 1] == x[i] && b[i + 1] == y[i]);
    }
}

proof fn lemma_precedes_is_transitive(a: Seq<char>, b: Seq<char>, c: Seq<char>)
    requires
        precedes(a, b),
        precedes(b, c),
    ensures
        precedes(a, c),
{
    let i = choose|i: int|
        0 <= i <= a.len() && i < b.len() && #[trigger] a.take(i) == b.take(i) && (i == a.len()
            || a[i] < b[i]);
    let j = choose|j: int|
        0 <= j <= b.len() && j < c.len() && #[trigger] b.take(j) == c.take(j) && (j == b.len()
            || b[j] < c[j]);
    let k = if i < j {
        i
    } else {
        j
    };
    assert(a.take(i).take(k) =~= a.take(k));
    assert(b.take(i).take(k) =~= b.take(k));
    assert(b.take(j).take(k) =~= b.take(k));
    assert(c.take(j).take(k) =~= c.take(k));
    if i < j {
        assert(b.take(j)[i] == c.take(j)[i]);
    } else if j < i {
        assert(a.take(i)[j] == b.take(i)[j]);
    }
}

/// The last of finitely many keys.
proof fn lemma_last_key(keys: Set<Seq<char>>) -> (last: Seq<char>)
    requires
        keys.finite(),
        keys.len() > 0,
    ensures
        keys.contains(last),
        forall|k: Seq<char>| #[trigger] keys.contains(k) && k != last ==> precedes(k, last),
    decreases keys.len(),
{
    let one = keys.choose();
    let others = keys.remove(one);
    if others.len() == 0 {
        assert forall|k: Seq<char>| #[trigger] keys.contains(k) implies k == one by {
            if k != one {
                assert(others.contains(k));
                assert(others.len() > 0) by {
                    vstd::set_lib::lemma_set_empty_equivalency_len(others);
                }
            }
        }
        one
    } else {
        let top = lemma_last_key(others);
        lemma_precedes_is_total(one, top);
        let last = if precedes(one, top) {
            top
        } else {
            one
        };
        assert forall|k: Seq<char>| #[trigger] keys.contains(k) && k != last implies precedes(
            k,
            last,
        ) by {
            if k != one {
                assert(others.contains(k));
                if last == one && k != top {
                    lemma_precedes_is_transitive(k, top, one);
                }
            }
        }
        last
    }
}

/// The fields of an object can be put in order, however many there are.
pub proof fn law_key_order_exists(fields: Map<Seq<char>, Seq<char>>) -> (keys: Seq<Seq<char>>)
    requires
        fields.dom().finite(),
    ensures
        in_key_order(keys, fields),
    decreases fields.dom().len(),
{
    if fields.dom().len() == 0 {
        vstd::set_lib::lemma_set_empty_equivalency_len(fields.dom());
        let none = Seq::<Seq<char>>::empty();
        assert(none.to_set() =~= fields.dom());
        none
    } else {
        let last = lemma_last_key(fields.dom());
        let rest = fields.remove(last);
        let front = law_key_order_exists(rest);
        let keys = front.push(last);
        assert forall|k: Seq<char>| keys.to_set().contains(k) == fields.dom().contains(k) by {
            if keys.to_set().contains(k) {
                let i = choose|i: int| 0 <= i < keys.len() && keys[i] == k;
                if i < front.len() {
                    assert(front[i] == k);
                    assert(front.to_set().contains(k));
                    assert(rest.dom().contains(k));
                }
            }
            if fields.dom().contains(k) {
                if k == last {
                    assert(keys[front.len() as int] == k);
                } else {
                    assert(rest.dom().contains(k));
                    assert(front.to_set().contains(k));
                    let i = choose|i: int| 0 <= i < front.len() && front[i] == k;
                    assert(keys[i] == k);
                }
            }
        }
        assert(keys.to_set() =~= fields.dom());
        assert forall|i: int, j: int| 0 <= i < j < keys.len() implies precedes(
            #[trigger] keys[i],
            #[trigger] keys[j],
        ) by {
            if j < front.len() {
                assert(precedes(front[i], front[j]));
            } else {
                assert(front.to_set().contains(front[i]));
                assert(rest.dom().contains(keys[i]));
            }
        }
        keys
    }
}

/// An object's text lists its fields in the order of their keys.
pub proof fn law_object_text_is_sorted(keys: Seq<Seq<char>>, fields: Map<Seq<char>, Seq<char>>)
    requires
        in_key_order(keys, fields),
    ensures
        object_text(fields) == seq!['{'] + join(
            keys.map_values(|k: Seq<char>| json_string(k) + seq![':'] + fields[k]),
            seq![','],
        ) + seq!['}'],
{
    let chosen = choose|chosen: Seq<Seq<char>>| in_key_order(chosen, fields);
    law_key_order_is_unique(chosen, keys, fields);
}

/// An object's text does not depend on the order in which its fields were set.
pub proof fn law_field_order_is_free(
    fields: Map<Seq<char>, Seq<char>>,
    k1: Seq<char>,
    v1: Seq<char>,
    k2: Seq<char>,
    v2: Seq<char>,
)
    requires
        k1 != k2,
    ensures
        object_text(fields.insert(k1, v1).insert(k2, v2)) == object_text(
            fields.insert(k2, v2).insert(k1, v1),
        ),
{
    assert(fields.insert(k1, v1).insert(k2, v2) =~= fields.insert(k2, v2).insert(k1, v1));
}

/// The compact text of an object whose fields are given with their texts, in order.
pub open spec fn object_of(members: Seq<(Seq<char>, Seq<char>)>) -> Seq<char> {
    seq!['{'] + join(
        members.map_values(|m: (Seq<char>, Seq<char>)| json_string(m.0) + seq![':'] + m.1),
        seq![','],
    ) + seq!['}']
}

/// An object's text is that of its fields in the order of their keys.
pub proof fn law_object_is_its_members(
    fields: Map<Seq<char>, Seq<char>>,
    members: Seq<(Seq<char>, Seq<char>)>,
)
    requires
        forall|i: int|
            0 <= i < members.len() ==> fields.dom().contains((#[trigger] members[i]).0)
                && fields[members[i].0] == members[i].1,
        forall|k: Seq<char>| #[trigger]
            fields.dom().contains(k) ==> exists|i: int|
                0 <= i < members.len() && (#[trigger] members[i]).0 == k,
        forall|i: int|
            0 <= i < members.len() - 1 ==> precedes((#[trigger] members[i]).0, members[i + 1].0),
    ensures
        object_text(fields) == object_of(members),
{
    let keys = members.map_values(|m: (Seq<char>, Seq<char>)| m.0);
    assert forall|k: Seq<char>| keys.to_set().contains(k) == fields.dom().contains(k) by {
        if keys.to_set().contains(k) {
            let i = choose|i: int| 0 <= i < keys.len() && keys[i] == k;
            assert(members[i].0 == k);
        }
        if fields.dom().contains(k) {
            let i = choose|i: int| 0 <= i < members.len() && (#[trigger] members[i]).0 == k;
            assert(keys[i] == k);
        }
    }
    assert(keys.to_set() =~= fields.dom());
    assert forall|i: int, j: int| 0 <= i < j < keys.len() implies precedes(
        #[trigger] keys[i],
        #[trigger] keys[j],
    ) by {
        lemma_members_in_order(members, i, j);
    }
    law_object_text_is_sorted(keys, fields);
    assert(keys.map_values(|k: Seq<char>| json_string(k) + seq![':'] + fields[k])
        =~= members.map_values(
        |m: (Seq<char>, Seq<char>)| json_string(m.0) + seq![':'] + m.1,
    )) by {
        assert forall|i: int| 0 <= i < keys.len() implies fields[#[trigger] keys[i]]
            == members[i].1 by {}
    }
}

proof fn lemma_members_in_order(members: Seq<(Seq<char>, Seq<char>)>, i: int, j: int)
    requires
        0 <= i < j < members.len(),
        forall|i: int|
            0 <= i < members.len() - 1 ==> precedes((#[trigger] members[i]).0, members[i + 1].0),
    ensures
        precedes(members[i].0, members[j].0),
    decreases j - i,
{
    assert(precedes(members[i].0, members[i + 1].0));
    if i + 1 < j {
        lemma_members_in_order(members, i + 1, j);
        lemma_precedes_is_transitive(members[i].0, members[i + 1].0, members[j].0);
    }
}

/// Of two texts that start alike, the one with the lower character behind that precedes.
pub proof fn lemma_precedes_at(a: Seq<char>, b: Seq<char>, i: int)
    requires
        0 <= i < a.len(),
        i < b.len(),
        a.take(i) == b.take(i),
        a[i] < b[i],
    ensures
        precedes(a, b),
{
}

} // verus!
