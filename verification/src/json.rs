//! A JSON document model that the rest of the library reads and builds.
//! Numbers are kept as the literal text of the number.

use vstd::prelude::*;

verus! {

/// A JSON value.
pub enum Json {
    Null,
    Bool(bool),
    /// The literal text of a JSON number, such as `12` or `0.5`.
    Number(String),
    Str(String),
    Array(Vec<Json>),
    /// The members of an object, in order.
    Object(Vec<(String, Json)>),
}

/// The mathematical value of a [`Json`].
pub enum JsonV {
    Null,
    Bool(bool),
    Number(Seq<char>),
    Str(Seq<char>),
    Array(Seq<JsonV>),
    Object(Seq<(Seq<char>, JsonV)>),
}

impl View for Json {
    type V = JsonV;

    open spec fn view(&self) -> JsonV
        decreases self, 0nat,
    {
        match self {
            Json::Null => JsonV::Null,
            Json::Bool(b) => JsonV::Bool(*b),
            Json::Number(n) => JsonV::Number(n@),
            Json::Str(s) => JsonV::Str(s@),
            Json::Array(items) => JsonV::Array(items_view(items@)),
            Json::Object(fields) => JsonV::Object(members_view(fields@)),
        }
    }
}

/// The values of a sequence of JSON items.
pub open spec fn items_view(items: Seq<Json>) -> Seq<JsonV>
    decreases items, 1nat,
{
    if items.len() == 0 {
        Seq::empty()
    } else {
        seq![items[0].view()] + items_view(items.drop_first())
    }
}

/// The values of a sequence of object members.
pub open spec fn members_view(fields: Seq<(String, Json)>) -> Seq<(Seq<char>, JsonV)>
    decreases fields, 1nat,
{
    if fields.len() == 0 {
        Seq::empty()
    } else {
        proof {
            assert(decreases_to!(fields => fields[0]));
            assert(decreases_to!(fields[0] => fields[0].1));
        }
        seq![(fields[0].0@, fields[0].1.view())] + members_view(fields.drop_first())
    }
}

/// Each member's value is the value of the corresponding member.
pub proof fn lemma_members_view(fields: Seq<(String, Json)>)
    ensures
        members_view(fields).len() == fields.len(),
        forall|i: int|
            0 <= i < fields.len() ==> #[trigger] members_view(fields)[i] == (
                fields[i].0@,
                fields[i].1@,
            ),
    decreases fields.len(),
{
    if fields.len() == 0 {
        assert(members_view(fields) == Seq::<(Seq<char>, JsonV)>::empty());
    } else {
        lemma_members_view(fields.drop_first());
        assert(members_view(fields) == seq![(fields[0].0@, fields[0].1.view())] + members_view(fields.drop_first()));
        assert forall|i: int| 0 <= i < fields.len() implies #[trigger] members_view(fields)[i] == (
            fields[i].0@,
            fields[i].1@,
        ) by {
            if i > 0 {
                assert(fields.drop_first()[i - 1] == fields[i]);
            }
        }
    }
}

/// Each item's value is the value of the corresponding item.
pub proof fn lemma_items_view(items: Seq<Json>)
    ensures
        items_view(items).len() == items.len(),
        forall|i: int| 0 <= i < items.len() ==> #[trigger] items_view(items)[i] == items[i]@,
    decreases items.len(),
{
    if items.len() == 0 {
        assert(items_view(items) == Seq::<JsonV>::empty());
    } else {
        lemma_items_view(items.drop_first());
        assert(items_view(items) == seq![items[0].view()] + items_view(items.drop_first()));
        assert forall|i: int| 0 <= i < items.len() implies #[trigger] items_view(items)[i]
            == items[i]@ by {
            if i > 0 {
                assert(items.drop_first()[i - 1] == items[i]);
            }
        }
    }
}

/// The value stored under `key` among `fields`: the first member with that key.
pub open spec fn lookup(fields: Seq<(Seq<char>, JsonV)>, key: Seq<char>) -> Option<JsonV>
    decreases fields.len(),
{
    if fields.len() == 0 {
        None
    } else if fields[0].0 == key {
        Some(fields[0].1)
    } else {
        lookup(fields.drop_first(), key)
    }
}

impl JsonV {
    /// Member `key` of an object; `None` for a missing member or a non-object.
    pub open spec fn get(self, key: Seq<char>) -> Option<JsonV> {
        match self {
            JsonV::Object(fields) => lookup(fields, key),
            _ => None,
        }
    }
}

impl Json {
    /// Member `key` of an object; `None` for a missing member or a non-object.
    pub fn get(&self, key: &str) -> (res: Option<&Json>)
        ensures
            match res {
                Some(j) => self@.get(key@) == Some(j@),
                None => self@.get(key@) is None,
            },
    {
        match self {
            Json::Object(fields) => {
                let k = key.to_owned();
                let ghost m = members_view(fields@);
                proof {
                    lemma_members_view(fields@);
                    assert(m.skip(0) =~= m);
                }
                let mut i: usize = 0;
                while i < fields.len()
                    invariant
                        0 <= i <= fields.len(),
                        k@ == key@,
                        m == members_view(fields@),
                        m.len() == fields.len(),
                        forall|j: int| 0 <= j < fields.len() ==> #[trigger] m[j] == (fields@[j].0@, fields@[j].1@),
                        self@.get(key@) == lookup(m.skip(i as int), key@),
                    decreases fields.len() - i,
                {
                    assert(m.skip(i as int).drop_first() =~= m.skip(i + 1));
                    assert(m.skip(i as int)[0] == m[i as int]);
                    if fields[i].0 == k {
                        return Some(&fields[i].1);
                    }
                    i = i + 1;
                }
                None
            },
            _ => None,
        }
    }
}


impl Json {
    /// A copy of this value.
    #[verifier::loop_isolation(false)]
    pub fn deep_clone(&self) -> (res: Json)
        ensures
            res@ == self@,
        decreases self,
    {
        match self {
            Json::Null => Json::Null,
            Json::Bool(b) => Json::Bool(*b),
            Json::Number(n) => Json::Number(n.clone()),
            Json::Str(s) => Json::Str(s.clone()),
            Json::Array(items) => {
                let mut out: Vec<Json> = Vec::new();
                let mut i: usize = 0;
                while i < items.len()
                    invariant
                        0 <= i <= items.len(),
                        out@.len() == i,
                        forall|j: int| 0 <= j < i ==> #[trigger] out@[j]@ == items@[j]@,
                    decreases items.len() - i,
                {
                    proof {
                        assert(decreases_to!(*self => self->Array_0));
                        assert(decreases_to!(items => items@));
                        assert(decreases_to!(items@ => items@[i as int]));
                    }
                    let c = items[i].deep_clone();
                    out.push(c);
                    i = i + 1;
                }
                proof {
                    lemma_items_view(out@);
                    lemma_items_view(items@);
                    assert(items_view(out@) =~= items_view(items@));
                }
                Json::Array(out)
            },
            Json::Object(fields) => {
                let mut out: Vec<(String, Json)> = Vec::new();
                let mut i: usize = 0;
                while i < fields.len()
                    invariant
                        0 <= i <= fields.len(),
                        out@.len() == i,
                        forall|j: int|
                            0 <= j < i ==> #[trigger] out@[j].0@ == fields@[j].0@ && out@[j].1@
                                == fields@[j].1@,
                    decreases fields.len() - i,
                {
                    proof {
                        assert(decreases_to!(*self => self->Object_0));
                        assert(decreases_to!(fields => fields@));
                        assert(decreases_to!(fields@ => fields@[i as int]));
                        assert(decreases_to!(fields@[i as int] => fields@[i as int].1));
                    }
                    let c = fields[i].1.deep_clone();
                    out.push((fields[i].0.clone(), c));
                    i = i + 1;
                }
                proof {
                    lemma_members_view(out@);
                    lemma_members_view(fields@);
                    assert(members_view(out@) =~= members_view(fields@));
                }
                Json::Object(out)
            },
        }
    }
}


/// `fields` with `key` set to `value`: the first member with that key is
/// replaced in place, or a new member is appended.
pub open spec fn put(fields: Seq<(Seq<char>, JsonV)>, key: Seq<char>, value: JsonV) -> Seq<
    (Seq<char>, JsonV),
>
    decreases fields.len(),
{
    if fields.len() == 0 {
        seq![(key, value)]
    } else if fields[0].0 == key {
        seq![(key, value)] + fields.drop_first()
    } else {
        seq![fields[0]] + put(fields.drop_first(), key, value)
    }
}

/// After setting a member, looking it up gives the new value, and every
/// other member is unchanged.
pub proof fn law_put_then_lookup(
    fields: Seq<(Seq<char>, JsonV)>,
    key: Seq<char>,
    value: JsonV,
    other: Seq<char>,
)
    ensures
        lookup(put(fields, key, value), key) == Some(value),
        other != key ==> lookup(put(fields, key, value), other) == lookup(fields, other),
    decreases fields.len(),
{
    let r = put(fields, key, value);
    if fields.len() == 0 {
        assert(r.drop_first() =~= Seq::<(Seq<char>, JsonV)>::empty());
        assert(r[0] == (key, value));
        assert(lookup(r.drop_first(), other) is None);
    } else if fields[0].0 == key {
        assert(r.drop_first() =~= fields.drop_first());
        assert(r[0] == (key, value));
    } else {
        assert(r[0] == fields[0]);
        law_put_then_lookup(fields.drop_first(), key, value, other);
        assert(r.drop_first() =~= put(fields.drop_first(), key, value));
    }
}

/// Looking up a key that the members do not hold gives `None`; a present
/// key gives the value of its first member.
pub proof fn lemma_lookup_index(fields: Seq<(Seq<char>, JsonV)>, key: Seq<char>, i: int)
    requires
        0 <= i <= fields.len(),
        forall|j: int| 0 <= j < i ==> #[trigger] fields[j].0 != key,
    ensures
        i == fields.len() ==> lookup(fields, key) is None,
        i < fields.len() && fields[i].0 == key ==> lookup(fields, key) == Some(fields[i].1),
        i == fields.len() ==> put(fields, key, JsonV::Null).len() == fields.len() + 1,
    decreases i,
{
    if i > 0 {
        assert forall|j: int| 0 <= j < i - 1 implies #[trigger] fields.drop_first()[j].0 != key by {
            assert(fields.drop_first()[j] == fields[j + 1]);
        }
        if i < fields.len() {
            assert(fields.drop_first()[i - 1] == fields[i]);
        }
        lemma_lookup_index(fields.drop_first(), key, i - 1);
    }
}

/// Setting a member whose first occurrence is at `i` replaces that member;
/// setting a member that is absent appends it.
proof fn lemma_put_index(fields: Seq<(Seq<char>, JsonV)>, key: Seq<char>, value: JsonV, i: int)
    requires
        0 <= i <= fields.len(),
        forall|j: int| 0 <= j < i ==> #[trigger] fields[j].0 != key,
        i == fields.len() || fields[i].0 == key,
    ensures
        i == fields.len() ==> put(fields, key, value) == fields.push((key, value)),
        i < fields.len() ==> put(fields, key, value) == fields.update(i, (key, value)),
    decreases i,
{
    if i == 0 {
        if fields.len() == 0 {
            assert(put(fields, key, value) =~= fields.push((key, value)));
        } else {
            assert(put(fields, key, value) =~= fields.update(0, (key, value)));
        }
    } else {
        assert forall|j: int| 0 <= j < i - 1 implies #[trigger] fields.drop_first()[j].0 != key by {
            assert(fields.drop_first()[j] == fields[j + 1]);
        }
        if i < fields.len() {
            assert(fields.drop_first()[i - 1] == fields[i]);
        }
        lemma_put_index(fields.drop_first(), key, value, i - 1);
        if i == fields.len() {
            assert(put(fields, key, value) =~= fields.push((key, value)));
        } else {
            assert(put(fields, key, value) =~= fields.update(i, (key, value)));
        }
    }
}

/// Sets member `key` of `fields` to `value`, in place where the key is
/// present, else by appending it.
pub fn put_member(fields: &mut Vec<(String, Json)>, key: &str, value: Json)
    ensures
        members_view(final(fields)@) == put(members_view(old(fields)@), key@, value@),
{
    let ghost m = members_view(fields@);
    proof {
        lemma_members_view(fields@);
    }
    let k = key.to_owned();
    let mut i: usize = 0;
    while i < fields.len()
        invariant
            0 <= i <= fields.len(),
            k@ == key@,
            fields@ == old(fields)@,
            m == members_view(fields@),
            m.len() == fields.len(),
            forall|j: int| 0 <= j < fields.len() ==> #[trigger] m[j] == (fields@[j].0@, fields@[j].1@),
            forall|j: int| 0 <= j < i ==> #[trigger] m[j].0 != key@,
        ensures
            0 <= i <= fields.len(),
            i == fields.len() || m[i as int].0 == key@,
        decreases fields.len() - i,
    {
        if fields[i].0 == k {
            break;
        }
        i = i + 1;
    }
    let ghost vv = value@;
    proof {
        lemma_put_index(m, key@, vv, i as int);
    }
    if i < fields.len() {
        fields.set(i, (k, value));
    } else {
        fields.push((k, value));
    }
    proof {
        lemma_members_view(fields@);
    }
    assert(members_view(fields@) =~= put(m, key@, vv));
}


impl JsonV {
    /// Item `i` of an array; `None` out of range or for a non-array.
    pub open spec fn at(self, i: int) -> Option<JsonV> {
        match self {
            JsonV::Array(items) => if 0 <= i < items.len() {
                Some(items[i])
            } else {
                None
            },
            _ => None,
        }
    }
}

impl Json {
    /// Item `i` of an array; `None` out of range or for a non-array.
    pub fn at(&self, i: usize) -> (res: Option<&Json>)
        ensures
            match res {
                Some(j) => self@.at(i as int) == Some(j@),
                None => self@.at(i as int) is None,
            },
    {
        match self {
            Json::Array(items) => {
                proof {
                    lemma_items_view(items@);
                }
                if i < items.len() {
                    Some(&items[i])
                } else {
                    None
                }
            },
            _ => None,
        }
    }

    /// A string value.
    pub fn str_value(s: &str) -> (res: Json)
        ensures
            res@ == JsonV::Str(s@),
    {
        Json::Str(s.to_owned())
    }

    /// An object with the given members.
    pub fn object(fields: Vec<(String, Json)>) -> (res: Json)
        ensures
            res@ == JsonV::Object(members_view(fields@)),
            members_view(fields@).len() == fields@.len(),
            forall|i: int|
                0 <= i < fields@.len() ==> #[trigger] members_view(fields@)[i] == (
                    fields@[i].0@,
                    fields@[i].1@,
                ),
    {
        proof {
            lemma_members_view(fields@);
        }
        Json::Object(fields)
    }

    /// An array with the given items.
    pub fn array(items: Vec<Json>) -> (res: Json)
        ensures
            res@ == JsonV::Array(items_view(items@)),
            items_view(items@).len() == items@.len(),
            forall|i: int| 0 <= i < items@.len() ==> #[trigger] items_view(items@)[i] == items@[i]@,
    {
        proof {
            lemma_items_view(items@);
        }
        Json::Array(items)
    }
}


/// The index of the first member with key `key`, if any.
pub fn find_member(fields: &Vec<(String, Json)>, key: &str) -> (res: Option<usize>)
    ensures
        match res {
            Some(i) => {
                &&& i < fields@.len()
                &&& fields@[i as int].0@ == key@
                &&& forall|j: int| 0 <= j < i ==> #[trigger] fields@[j].0@ != key@
                &&& lookup(members_view(fields@), key@) == Some(fields@[i as int].1@)
            },
            None => lookup(members_view(fields@), key@) is None,
        },
{
    let ghost m = members_view(fields@);
    proof {
        lemma_members_view(fields@);
    }
    let k = key.to_owned();
    let mut i: usize = 0;
    while i < fields.len()
        invariant
            0 <= i <= fields.len(),
            k@ == key@,
            m == members_view(fields@),
            m.len() == fields.len(),
            forall|j: int| 0 <= j < fields.len() ==> #[trigger] m[j] == (fields@[j].0@, fields@[j].1@),
            forall|j: int| 0 <= j < i ==> #[trigger] fields@[j].0@ != key@,
        decreases fields.len() - i,
    {
        if fields[i].0 == k {
            proof {
                assert forall|j: int| 0 <= j < i implies #[trigger] m[j].0 != key@ by {
                    assert(m[j].0 == fields@[j].0@);
                }
                lemma_lookup_index(m, key@, i as int);
            }
            return Some(i);
        }
        i = i + 1;
    }
    proof {
        assert forall|j: int| 0 <= j < i implies #[trigger] m[j].0 != key@ by {
            assert(m[j].0 == fields@[j].0@);
        }
        lemma_lookup_index(m, key@, i as int);
    }
    None
}


/// The key of any member is found by lookup.
pub proof fn lemma_lookup_present(fields: Seq<(Seq<char>, JsonV)>, i: int)
    requires
        0 <= i < fields.len(),
    ensures
        lookup(fields, fields[i].0) is Some,
    decreases fields.len(),
{
    if i > 0 && fields[0].0 != fields[i].0 {
        assert(fields.drop_first()[i - 1] == fields[i]);
        lemma_lookup_present(fields.drop_first(), i - 1);
    }
}

/// Whether no two members share a key.
pub open spec fn unique_keys(fields: Seq<(Seq<char>, JsonV)>) -> bool {
    forall|i: int, j: int|
        0 <= i < j < fields.len() ==> #[trigger] fields[i].0 != #[trigger] fields[j].0
}

/// The keys of the members.
pub open spec fn keys_of(fields: Seq<(Seq<char>, JsonV)>) -> Seq<Seq<char>> {
    fields.map_values(|m: (Seq<char>, JsonV)| m.0)
}

/// With unique keys, looking up the key of member `i` gives that member's value.
pub proof fn lemma_lookup_member(fields: Seq<(Seq<char>, JsonV)>, i: int)
    requires
        0 <= i < fields.len(),
        unique_keys(fields),
    ensures
        lookup(fields, fields[i].0) == Some(fields[i].1),
    decreases fields.len(),
{
    if i > 0 {
        assert(fields[0].0 != fields[i].0);
        assert(fields.drop_first()[i - 1] == fields[i]);
        assert(unique_keys(fields.drop_first())) by {
            assert forall|a: int, b: int|
                0 <= a < b < fields.drop_first().len() implies #[trigger] fields.drop_first()[a].0
                != #[trigger] fields.drop_first()[b].0 by {
                assert(fields.drop_first()[a] == fields[a + 1]);
                assert(fields.drop_first()[b] == fields[b + 1]);
            }
        }
        lemma_lookup_member(fields.drop_first(), i - 1);
    }
}


/// `base` with each member of `top` set on it in turn.
pub open spec fn overlay(base: Seq<(Seq<char>, JsonV)>, top: Seq<(Seq<char>, JsonV)>) -> Seq<
    (Seq<char>, JsonV),
>
    decreases top.len(),
{
    if top.len() == 0 {
        base
    } else {
        overlay(put(base, top[0].0, top[0].1), top.drop_first())
    }
}

/// Sets each member of `top` on `base` in turn.
pub fn overlay_members(base: &mut Vec<(String, Json)>, top: &Vec<(String, Json)>)
    ensures
        members_view(final(base)@) == overlay(members_view(old(base)@), members_view(top@)),
{
    let ghost tv = members_view(top@);
    proof {
        lemma_members_view(top@);
        assert(tv.skip(0) =~= tv);
    }
    let mut i: usize = 0;
    while i < top.len()
        invariant
            0 <= i <= top.len(),
            tv == members_view(top@),
            tv.len() == top.len(),
            forall|j: int| 0 <= j < top.len() ==> #[trigger] tv[j] == (top@[j].0@, top@[j].1@),
            overlay(members_view(old(base)@), tv) == overlay(members_view(base@), tv.skip(i as int)),
        decreases top.len() - i,
    {
        assert(tv.skip(i as int).drop_first() =~= tv.skip(i + 1));
        assert(tv.skip(i as int)[0] == tv[i as int]);
        let v = top[i].1.deep_clone();
        put_member(base, top[i].0.as_str(), v);
        i = i + 1;
    }
}



/// Whether `m` has no repeated keys and starts with the keys of `x`, in order.
pub open spec fn keeps_key_prefix(x: Seq<(Seq<char>, JsonV)>, m: Seq<(Seq<char>, JsonV)>) -> bool {
    &&& unique_keys(m)
    &&& m.len() >= x.len()
    &&& forall|i: int| 0 <= i < x.len() ==> #[trigger] m[i].0 == x[i].0
}

/// Setting a member of members with unique keys keeps the keys unique and
/// keeps every existing key in its place.
pub proof fn lemma_put_shape(f: Seq<(Seq<char>, JsonV)>, k: Seq<char>, v: JsonV)
    requires
        unique_keys(f),
    ensures
        keeps_key_prefix(f, put(f, k, v)),
{
    if exists|j: int| 0 <= j < f.len() && #[trigger] f[j].0 == k {
        let j = choose|j: int| 0 <= j < f.len() && #[trigger] f[j].0 == k;
        assert forall|i: int| 0 <= i < j implies #[trigger] f[i].0 != k by {
            assert(f[i].0 != f[j].0);
        }
        lemma_put_index(f, k, v, j);
        let r = put(f, k, v);
        assert forall|a: int, b: int| 0 <= a < b < r.len() implies #[trigger] r[a].0 != #[trigger] r[b].0 by {
            assert(r[a].0 == f[a].0);
            assert(r[b].0 == f[b].0);
        }
    } else {
        lemma_put_index(f, k, v, f.len() as int);
        let r = put(f, k, v);
        assert forall|a: int, b: int| 0 <= a < b < r.len() implies #[trigger] r[a].0 != #[trigger] r[b].0 by {
            if b == f.len() {
                assert(r[a].0 == f[a].0);
            }
        }
    }
}

/// Setting a member to the value it already has changes nothing.
pub proof fn lemma_put_same(f: Seq<(Seq<char>, JsonV)>, k: Seq<char>, v: JsonV)
    requires
        lookup(f, k) == Some(v),
    ensures
        put(f, k, v) == f,
    decreases f.len(),
{
    if f[0].0 == k {
        assert(put(f, k, v) =~= f);
    } else {
        lemma_put_same(f.drop_first(), k, v);
        assert(put(f, k, v) =~= f);
    }
}

/// Keys kept in order from `x` to `y` and from `y` to `z` are kept from `x` to `z`.
pub proof fn lemma_keeps_key_prefix_trans(
    x: Seq<(Seq<char>, JsonV)>,
    y: Seq<(Seq<char>, JsonV)>,
    z: Seq<(Seq<char>, JsonV)>,
)
    requires
        keeps_key_prefix(x, y),
        keeps_key_prefix(y, z),
    ensures
        keeps_key_prefix(x, z),
{
    assert forall|i: int| 0 <= i < x.len() implies #[trigger] z[i].0 == x[i].0 by {
        assert(z[i].0 == y[i].0);
    }
}

/// Setting members over members with unique keys keeps the keys unique and in place.
pub proof fn lemma_overlay_shape(x: Seq<(Seq<char>, JsonV)>, t: Seq<(Seq<char>, JsonV)>)
    requires
        unique_keys(x),
    ensures
        keeps_key_prefix(x, overlay(x, t)),
    decreases t.len(),
{
    if t.len() == 0 {
    } else {
        let y = put(x, t[0].0, t[0].1);
        lemma_put_shape(x, t[0].0, t[0].1);
        lemma_overlay_shape(y, t.drop_first());
        lemma_keeps_key_prefix_trans(x, y, overlay(y, t.drop_first()));
    }
}

proof fn lemma_overlay_fixed_from(x: Seq<(Seq<char>, JsonV)>, m: Seq<(Seq<char>, JsonV)>, j: int)
    requires
        keeps_key_prefix(x, m),
        0 <= j <= m.len(),
    ensures
        overlay(
            if j <= x.len() {
                m.take(j) + x.skip(j)
            } else {
                m.take(j)
            },
            m.skip(j),
        ) == m,
    decreases m.len() - j,
{
    let base = if j <= x.len() {
        m.take(j) + x.skip(j)
    } else {
        m.take(j)
    };
    if j == m.len() {
        assert(m.skip(j) =~= Seq::<(Seq<char>, JsonV)>::empty());
        assert(base =~= m);
    } else {
        let key = m[j].0;
        assert(m.skip(j)[0] == m[j]);
        assert(m.skip(j).drop_first() =~= m.skip(j + 1));
        let next = if j + 1 <= x.len() {
            m.take(j + 1) + x.skip(j + 1)
        } else {
            m.take(j + 1)
        };
        if j < x.len() {
            assert forall|i: int| 0 <= i < j implies #[trigger] base[i].0 != key by {
                assert(base[i] == m[i]);
                assert(m[i].0 != m[j].0);
            }
            assert(base[j] == x[j]);
            lemma_put_index(base, key, m[j].1, j);
            assert(base.update(j, (key, m[j].1)) =~= next);
        } else {
            assert(base =~= m.take(j));
            assert forall|i: int| 0 <= i < base.len() implies #[trigger] base[i].0 != key by {
                assert(base[i] == m[i]);
                assert(m[i].0 != m[j].0);
            }
            lemma_put_index(base, key, m[j].1, base.len() as int);
            assert(base.push((key, m[j].1)) =~= next);
        }
        lemma_overlay_fixed_from(x, m, j + 1);
    }
}

/// Setting the members of `m` over `x`, when `m` starts with the keys of `x`
/// and has no repeated keys, gives back `m`.
pub proof fn lemma_overlay_fixed(x: Seq<(Seq<char>, JsonV)>, m: Seq<(Seq<char>, JsonV)>)
    requires
        keeps_key_prefix(x, m),
    ensures
        overlay(x, m) == m,
{
    lemma_overlay_fixed_from(x, m, 0);
    assert(m.take(0) + x.skip(0) =~= x);
    assert(m.skip(0) =~= m);
}

} // verus!
