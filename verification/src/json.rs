//! JSON values.

use vstd::prelude::*;

verus! {

/// `serde_json::Number`: a JSON number, carried through as it came. Nothing is claimed of it.
#[verifier::external_type_specification]
#[verifier::external_body]
pub struct ExNumber(serde_json::Number);

/// A JSON value.
#[derive(Debug)]
pub enum Json {
    Null,
    Bool(bool),
    Number(serde_json::Number),
    String(String),
    Array(Vec<Json>),
    Object(JsonObject),
}

/// The members of a JSON object. Where a key stands more than once, the last one counts.
#[derive(Debug)]
pub struct JsonObject {
    members: Vec<(String, Json)>,
}

/// What a JSON value is. An object is what its keys map to; the order of its members means
/// nothing.
pub enum JsonView {
    Null,
    Bool(bool),
    Number(serde_json::Number),
    String(Seq<char>),
    Array(Seq<JsonView>),
    Object(Map<Seq<char>, JsonView>),
}

/// What the values `items` are, one by one.
pub open spec fn array_of(items: Seq<Json>) -> Seq<JsonView> {
    items.map_values(|item: Json| item@)
}

/// The object that comes of inserting `members` one after another.
pub open spec fn object_of(members: Seq<(String, Json)>) -> Map<Seq<char>, JsonView>
    decreases members.len(),
{
    if members.len() == 0 {
        Map::empty()
    } else {
        object_of(members.drop_last()).insert(members.last().0@, members.last().1@)
    }
}

impl Json {
    spec fn value(self) -> JsonView
        decreases self,
    {
        match self {
            Json::Null => JsonView::Null,
            Json::Bool(b) => JsonView::Bool(b),
            Json::Number(n) => JsonView::Number(n),
            Json::String(s) => JsonView::String(s@),
            Json::Array(items) => JsonView::Array(values(items@)),
            Json::Object(object) => JsonView::Object(mapping(object.members@)),
        }
    }
}

/// `array_of`, in the form that shows that `value` ends.
spec fn values(items: Seq<Json>) -> Seq<JsonView>
    decreases items,
{
    if items.len() == 0 {
        Seq::empty()
    } else {
        values(items.drop_last()).push(items.last().value())
    }
}

/// `object_of`, in the form that shows that `value` ends.
spec fn mapping(members: Seq<(String, Json)>) -> Map<Seq<char>, JsonView>
    decreases members,
{
    if members.len() == 0 {
        Map::empty()
    } else {
        mapping(members.drop_last()).insert(members.last().0@, members.last().1.value())
    }
}

impl View for Json {
    type V = JsonView;

    closed spec fn view(&self) -> JsonView {
        self.value()
    }
}

impl View for JsonObject {
    type V = Map<Seq<char>, JsonView>;

    closed spec fn view(&self) -> Map<Seq<char>, JsonView> {
        object_of(self.members@)
    }
}

proof fn lemma_values(items: Seq<Json>)
    ensures
        values(items) == array_of(items),
    decreases items.len(),
{
    if items.len() > 0 {
        lemma_values(items.drop_last());
        assert(array_of(items) =~= array_of(items.drop_last()).push(items.last()@));
    } else {
        assert(array_of(items) =~= Seq::<JsonView>::empty());
    }
}

proof fn lemma_mapping(members: Seq<(String, Json)>)
    ensures
        mapping(members) == object_of(members),
    decreases members.len(),
{
    if members.len() > 0 {
        lemma_mapping(members.drop_last());
    }
}

/// What each kind of value is.
pub broadcast proof fn lemma_json_view(v: Json)
    ensures
        #![trigger v@]
        v is Null ==> v@ == JsonView::Null,
        v matches Json::Bool(b) ==> v@ == JsonView::Bool(b),
        v matches Json::Number(n) ==> v@ == JsonView::Number(n),
        v matches Json::String(s) ==> v@ == JsonView::String(s@),
        v matches Json::Array(items) ==> v@ == JsonView::Array(array_of(items@)),
        v matches Json::Object(object) ==> v@ == JsonView::Object(object@),
{
    if let Json::Array(items) = v {
        lemma_values(items@);
    }
    if let Json::Object(object) = v {
        lemma_mapping(object.members@);
    }
}

impl JsonObject {
    /// The object with these members.
    pub fn from_members(members: Vec<(String, Json)>) -> (r: JsonObject)
        ensures
            r@ == object_of(members@),
    {
        JsonObject { members }
    }

    /// The value under `key`, if there is one.
    pub fn get(&self, key: &str) -> (r: Option<&Json>)
        ensures
            match r {
                Some(value) => self@.contains_key(key@) && value@ == self@[key@],
                None => !self@.contains_key(key@),
            },
    {
        let wanted = key.to_owned();
        let mut i: usize = self.members.len();
        assert(self.members@.take(i as int) =~= self.members@);
        while i > 0
            invariant
                i <= self.members@.len(),
                wanted@ == key@,
                self@.contains_key(key@) == object_of(self.members@.take(i as int)).contains_key(
                    key@,
                ),
                self@.contains_key(key@) ==> self@[key@] == object_of(
                    self.members@.take(i as int),
                )[key@],
            decreases i,
        {
            assert(self.members@.take(i as int).drop_last() =~= self.members@.take(i - 1));
            assert(self.members@.take(i as int).last() == self.members@[i - 1]);
            i = i - 1;
            if self.members[i].0 == wanted {
                return Some(&self.members[i].1);
            }
        }
        None
    }

    /// Takes the value under `key` out, if there is one.
    pub fn remove(&mut self, key: &str) -> (r: Option<Json>)
        ensures
            final(self)@ == old(self)@.remove(key@),
            match r {
                Some(value) => old(self)@.contains_key(key@) && value@ == old(self)@[key@],
                None => !old(self)@.contains_key(key@),
            },
    {
        let wanted = key.to_owned();
        let mut members: Vec<(String, Json)> = Vec::new();
        std::mem::swap(&mut members, &mut self.members);
        let ghost all = members@;
        let ghost mut n: int = 0;
        let mut kept: Vec<(String, Json)> = Vec::new();
        let mut found: Option<Json> = None;
        assert(object_of(kept@) =~= object_of(all.take(0)).remove(key@));
        for member in it: members
            invariant
                it.seq() == all,
                wanted@ == key@,
                n == it.index(),
                object_of(kept@) == object_of(all.take(n)).remove(key@),
                match found {
                    Some(value) => object_of(all.take(n)).contains_key(key@) && value@ == object_of(
                        all.take(n),
                    )[key@],
                    None => !object_of(all.take(n)).contains_key(key@),
                },
        {
            let ghost before = kept@;
            assert(all.take(n + 1).drop_last() =~= all.take(n));
            assert(all.take(n + 1).last() == member);
            if member.0 == wanted {
                found = Some(member.1);
                assert(object_of(kept@) =~= object_of(all.take(n + 1)).remove(key@));
            } else {
                kept.push(member);
                assert(kept@.drop_last() =~= before);
                assert(object_of(kept@) =~= object_of(all.take(n + 1)).remove(key@));
            }
            proof {
                n = n + 1;
            }
        }
        assert(all.take(n) =~= all);
        self.members = kept;
        found
    }

    /// Puts `value` under `key`, in place of what was there.
    pub fn insert(&mut self, key: &str, value: Json)
        ensures
            final(self)@ == old(self)@.insert(key@, value@),
    {
        let _ = self.remove(key);
        let ghost before = self.members@;
        self.members.push((key.to_owned(), value));
        assert(self.members@.drop_last() =~= before);
        assert(self@ =~= old(self)@.insert(key@, value@));
    }

    /// Puts `value` under `key` unless something is there.
    pub fn or_insert(&mut self, key: &str, value: Json)
        ensures
            final(self)@ == if old(self)@.contains_key(key@) {
                old(self)@
            } else {
                old(self)@.insert(key@, value@)
            },
    {
        if self.get(key).is_none() {
            self.insert(key, value);
        }
    }

    /// The members, in some order.
    pub fn into_members(self) -> (r: Vec<(String, Json)>)
        ensures
            object_of(r@) == self@,
    {
        self.members
    }
}

} // verus!
