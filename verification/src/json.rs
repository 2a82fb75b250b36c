//! JSON values as plain data.
//!
//! A number with a fraction or an exponent is kept as the text that writes it.

use crate::text::{dec_signed, join, joined, same, signed_decimal, views};
use vstd::prelude::*;
use vstd::string::*;

verus! {

pub enum Json {
    Null,
    Bool(bool),
    Int(i128),
    Float(String),
    Str(String),
    Arr(Vec<Json>),
    Obj(Vec<Member>),
}

/// One key of an object with its value.
pub struct Member {
    pub key: String,
    pub value: Json,
}

/// What a JSON value is. An object lists its members; a key that is set again
/// keeps its place.
pub ghost enum JsonView {
    Null,
    Bool(bool),
    Int(int),
    Float(Seq<char>),
    Str(Seq<char>),
    Arr(Seq<JsonView>),
    Obj(Seq<(Seq<char>, JsonView)>),
}

pub open spec fn value_view(j: Json) -> JsonView
    decreases j,
{
    match j {
        Json::Null => JsonView::Null,
        Json::Bool(b) => JsonView::Bool(b),
        Json::Int(n) => JsonView::Int(n as int),
        Json::Float(s) => JsonView::Float(s@),
        Json::Str(s) => JsonView::Str(s@),
        Json::Arr(v) => JsonView::Arr(items_view(v@)),
        Json::Obj(v) => JsonView::Obj(members_view(v@)),
    }
}

pub open spec fn items_view(v: Seq<Json>) -> Seq<JsonView>
    decreases v,
{
    if v.len() == 0 {
        Seq::empty()
    } else {
        items_view(v.drop_last()).push(value_view(v.last()))
    }
}

pub open spec fn members_view(v: Seq<Member>) -> Seq<(Seq<char>, JsonView)>
    decreases v,
{
    if v.len() == 0 {
        Seq::empty()
    } else {
        members_view(v.drop_last()).push((v.last().key@, value_view(v.last().value)))
    }
}

impl View for Json {
    type V = JsonView;

    open spec fn view(&self) -> JsonView {
        value_view(*self)
    }
}

pub proof fn lemma_items(v: Seq<Json>)
    ensures
        items_view(v).len() == v.len(),
        forall|i: int|
            #![trigger v[i]]
            #![trigger items_view(v)[i]]
            0 <= i < v.len() ==> items_view(v)[i] == v[i]@,
    decreases v.len(),
{
    if v.len() > 0 {
        lemma_items(v.drop_last());
        assert forall|i: int|
            #![trigger v[i]]
            #![trigger items_view(v)[i]]
            0 <= i < v.len() implies items_view(v)[i] == v[i]@ by {
            if i < v.len() - 1 {
                assert(v.drop_last()[i] == v[i]);
            }
        }
    }
}

pub proof fn lemma_members(v: Seq<Member>)
    ensures
        members_view(v).len() == v.len(),
        forall|i: int|
            #![trigger v[i]]
            #![trigger members_view(v)[i]]
            0 <= i < v.len() ==> members_view(v)[i] == (v[i].key@, v[i].value@),
    decreases v.len(),
{
    if v.len() > 0 {
        lemma_members(v.drop_last());
        assert forall|i: int|
            #![trigger v[i]]
            #![trigger members_view(v)[i]]
            0 <= i < v.len() implies members_view(v)[i] == (v[i].key@, v[i].value@) by {
            if i < v.len() - 1 {
                assert(v.drop_last()[i] == v[i]);
            }
        }
    }
}

// ------------------------------------------------------------ the model

/// Where `key` first stands among `m`; `m.len()` if nowhere.
pub open spec fn key_at(m: Seq<(Seq<char>, JsonView)>, key: Seq<char>) -> int
    decreases m.len(),
{
    if m.len() == 0 {
        0
    } else if m[0].0 == key {
        0
    } else {
        1 + key_at(m.skip(1), key)
    }
}

pub proof fn lemma_key_at(m: Seq<(Seq<char>, JsonView)>, key: Seq<char>)
    ensures
        0 <= key_at(m, key) <= m.len(),
        key_at(m, key) < m.len() ==> m[key_at(m, key)].0 == key,
        forall|i: int| 0 <= i < key_at(m, key) ==> (#[trigger] m[i]).0 != key,
    decreases m.len(),
{
    if m.len() > 0 && m[0].0 != key {
        let t = m.skip(1);
        lemma_key_at(t, key);
        assert forall|i: int| 0 <= i < key_at(m, key) implies (#[trigger] m[i]).0 != key by {
            if i > 0 {
                assert(t[i - 1] == m[i]);
            }
        }
    }
}

impl JsonView {
    pub open spec fn is_object(self) -> bool {
        self is Obj
    }

    /// The value under `key`; nothing where this is no object or lacks the key.
    pub open spec fn get(self, key: Seq<char>) -> Option<JsonView> {
        match self {
            JsonView::Obj(m) => if key_at(m, key) < m.len() {
                Some(m[key_at(m, key)].1)
            } else {
                None
            },
            _ => None,
        }
    }

    /// The value under `a`, or else the one under `b`.
    pub open spec fn get_either(self, a: Seq<char>, b: Seq<char>) -> Option<JsonView> {
        match self.get(a) {
            Some(v) => Some(v),
            None => self.get(b),
        }
    }

    /// This object with `value` under `key`.
    pub open spec fn with(self, key: Seq<char>, value: JsonView) -> JsonView {
        match self {
            JsonView::Obj(m) => {
                let i = key_at(m, key);
                if i < m.len() {
                    JsonView::Obj(m.update(i, (key, value)))
                } else {
                    JsonView::Obj(m.push((key, value)))
                }
            },
            _ => self,
        }
    }

    pub open spec fn as_text(self) -> Option<Seq<char>> {
        match self {
            JsonView::Str(s) => Some(s),
            _ => None,
        }
    }

    pub open spec fn as_int(self) -> Option<int> {
        match self {
            JsonView::Int(n) => Some(n),
            _ => None,
        }
    }

    pub open spec fn as_flag(self) -> Option<bool> {
        match self {
            JsonView::Bool(b) => Some(b),
            _ => None,
        }
    }

    pub open spec fn as_items(self) -> Option<Seq<JsonView>> {
        match self {
            JsonView::Arr(v) => Some(v),
            _ => None,
        }
    }
}

/// The object without members.
pub open spec fn empty_object() -> JsonView {
    JsonView::Obj(Seq::empty())
}

/// The view of an optional value.
pub open spec fn opt_json(o: Option<Json>) -> Option<JsonView> {
    match o {
        Some(j) => Some(j@),
        None => None,
    }
}

/// Setting a key and reading it back gives the value that was set.
pub proof fn lemma_with_get(o: JsonView, key: Seq<char>, value: JsonView)
    requires
        o is Obj,
    ensures
        o.with(key, value) is Obj,
        o.with(key, value).get(key) == Some(value),
{
    let m = o->Obj_0;
    let n = o.with(key, value)->Obj_0;
    lemma_key_at(m, key);
    lemma_key_at(n, key);
    let i = key_at(m, key);
    let k = key_at(n, key);
    assert(n[i].0 == key);
    if k < i {
        assert(m[k].0 == n[k].0);
    } else if i < k {
        assert(n[i].0 != key);
    }
}

/// Setting a key leaves every other key as it was.
pub proof fn lemma_with_other(o: JsonView, key: Seq<char>, value: JsonView, other: Seq<char>)
    requires
        o is Obj,
        other != key,
    ensures
        o.with(key, value).get(other) == o.get(other),
{
    let m = o->Obj_0;
    let n = o.with(key, value)->Obj_0;
    lemma_key_at(m, key);
    lemma_key_at(m, other);
    lemma_key_at(n, other);
    let a = key_at(m, other);
    let b = key_at(n, other);
    assert forall|i: int| 0 <= i < m.len() implies (#[trigger] n[i]).0 == m[i].0 by {}
    if a < m.len() {
        assert(n[a].0 == other);
        if b < a {
            assert(m[b].0 == n[b].0);
        }
    } else if b < n.len() {
        if b < m.len() {
            assert(m[b].0 == n[b].0);
        }
    }
}

// ------------------------------------------------------------ the values

impl Json {
    pub fn object() -> (r: Json)
        ensures
            r@ == empty_object(),
    {
        Json::Obj(Vec::new())
    }

    pub fn text(s: &str) -> (r: Json)
        ensures
            r@ == JsonView::Str(s@),
    {
        Json::Str(s.to_owned())
    }

    pub fn count(n: u64) -> (r: Json)
        ensures
            r@ == JsonView::Int(n as int),
    {
        Json::Int(n as i128)
    }

    pub fn signed(n: i64) -> (r: Json)
        ensures
            r@ == JsonView::Int(n as int),
    {
        Json::Int(n as i128)
    }

    pub fn flag(b: bool) -> (r: Json)
        ensures
            r@ == JsonView::Bool(b),
    {
        Json::Bool(b)
    }

    pub fn texts(v: &Vec<String>) -> (r: Json)
        ensures
            r@ == JsonView::Arr(text_items(crate::text::views(v@))),
    {
        let mut out: Vec<Json> = Vec::new();
        let mut i: usize = 0;
        while i < v.len()
            invariant
                i <= v@.len(),
                out@.len() == i,
                items_view(out@) == text_items(crate::text::views(v@).take(i as int)),
            decreases v@.len() - i,
        {
            let ghost before = out@;
            out.push(Json::Str(v[i].clone()));
            proof {
                assert(out@.drop_last() =~= before);
                assert(out@.last()@ == JsonView::Str(v@[i as int]@));
                let t = crate::text::views(v@).take(i + 1);
                assert(text_items(t) =~= text_items(crate::text::views(v@).take(i as int)).push(
                    JsonView::Str(v@[i as int]@),
                ));
            }
            i = i + 1;
        }
        proof {
            assert(crate::text::views(v@).take(v@.len() as int) =~= crate::text::views(v@));
        }
        Json::Arr(out)
    }

    pub fn is_object(&self) -> (r: bool)
        ensures
            r == self@.is_object(),
    {
        match self {
            Json::Obj(_) => true,
            _ => false,
        }
    }

    pub fn get<'a>(&'a self, key: &str) -> (r: Option<&'a Json>)
        ensures
            match (r, self@.get(key@)) {
                (Some(a), Some(b)) => a@ == b,
                (None, None) => true,
                _ => false,
            },
    {
        match self {
            Json::Obj(v) => {
                proof {
                    lemma_members(v@);
                    lemma_key_at(members_view(v@), key@);
                }
                let mut i: usize = 0;
                while i < v.len()
                    invariant
                        i <= v@.len(),
                        forall|k: int| 0 <= k < i ==> (#[trigger] v@[k]).key@ != key@,
                        members_view(v@).len() == v@.len(),
                        forall|k: int|
                            0 <= k < v@.len() ==> members_view(v@)[k] == (
                                (#[trigger] v@[k]).key@,
                                v@[k].value@,
                            ),
                        self@ == JsonView::Obj(members_view(v@)),
                    decreases v@.len() - i,
                {
                    if same(v[i].key.as_str(), key) {
                        proof {
                            lemma_key_at(members_view(v@), key@);
                            let at = key_at(members_view(v@), key@);
                            assert(members_view(v@)[i as int].0 == key@);
                            if at < i {
                                assert(v@[at].key@ != key@);
                            }
                            assert(at == i);
                        }
                        return Some(&v[i].value);
                    }
                    i = i + 1;
                }
                proof {
                    lemma_key_at(members_view(v@), key@);
                    let at = key_at(members_view(v@), key@);
                    if at < v@.len() {
                        assert(v@[at].key@ != key@);
                    }
                }
                None
            },
            _ => None,
        }
    }

    pub fn get_either<'a>(&'a self, a: &str, b: &str) -> (r: Option<&'a Json>)
        ensures
            match (r, self@.get_either(a@, b@)) {
                (Some(x), Some(y)) => x@ == y,
                (None, None) => true,
                _ => false,
            },
    {
        match self.get(a) {
            Some(v) => Some(v),
            None => self.get(b),
        }
    }

    pub fn as_text<'a>(&'a self) -> (r: Option<&'a String>)
        ensures
            match (r, self@.as_text()) {
                (Some(x), Some(y)) => x@ == y,
                (None, None) => true,
                _ => false,
            },
    {
        match self {
            Json::Str(s) => Some(s),
            _ => None,
        }
    }

    pub fn as_flag(&self) -> (r: Option<bool>)
        ensures
            r == self@.as_flag(),
    {
        match self {
            Json::Bool(b) => Some(*b),
            _ => None,
        }
    }

    /// The number, where it is an integer that fits 64 signed bits.
    pub fn as_i64(&self) -> (r: Option<i64>)
        ensures
            match r {
                Some(n) => self@.as_int() == Some(n as int),
                None => match self@.as_int() {
                    Some(n) => n < i64::MIN || n > i64::MAX,
                    None => true,
                },
            },
    {
        match self {
            Json::Int(n) => {
                if *n >= -0x8000_0000_0000_0000 && *n <= 0x7fff_ffff_ffff_ffff {
                    Some(*n as i64)
                } else {
                    None
                }
            },
            _ => None,
        }
    }

    /// This object with `value` under `key`.
    pub fn with(self, key: &str, value: Json) -> (r: Json)
        ensures
            r@ == self@.with(key@, value@),
    {
        match self {
            Json::Obj(v) => {
                let mut v = v;
                let ghost m = members_view(v@);
                proof {
                    lemma_members(v@);
                    lemma_key_at(m, key@);
                }
                let n: usize = v.len();
                let mut i: usize = 0;
                while i < n && !same(v[i].key.as_str(), key)
                    invariant
                        i <= n,
                        n == v@.len(),
                        m == members_view(v@),
                        m.len() == v@.len(),
                        forall|k: int| 0 <= k < i ==> (#[trigger] v@[k]).key@ != key@,
                    decreases n - i,
                {
                    i = i + 1;
                }
                proof {
                    lemma_members(v@);
                    lemma_key_at(m, key@);
                    let at = key_at(m, key@);
                    if at < i {
                        assert(v@[at].key@ != key@);
                    }
                    if i < n && i < at {
                        assert(m[i as int].0 != key@);
                    }
                    assert(at == i);
                }
                let ghost before = v@;
                if i < n {
                    v.set(i, Member { key: key.to_owned(), value });
                    proof {
                        lemma_members(v@);
                        assert(members_view(v@) =~= m.update(i as int, (key@, value@)));
                    }
                } else {
                    v.push(Member { key: key.to_owned(), value });
                    proof {
                        assert(v@.drop_last() =~= before);
                    }
                }
                Json::Obj(v)
            },
            other => other,
        }
    }

    /// A value of its own that equals this one.
    pub fn copy(&self) -> (r: Json)
        ensures
            r@ == self@,
        decreases *self,
    {
        match self {
            Json::Null => Json::Null,
            Json::Bool(b) => Json::Bool(*b),
            Json::Int(n) => Json::Int(*n),
            Json::Float(s) => Json::Float(s.clone()),
            Json::Str(s) => Json::Str(s.clone()),
            Json::Arr(v) => {
                let mut out: Vec<Json> = Vec::new();
                let mut i: usize = 0;
                while i < v.len()
                    invariant
                        i <= v@.len(),
                        out@.len() == i,
                        forall|k: int| 0 <= k < i ==> (#[trigger] out@[k])@ == v@[k]@,
                        *self == Json::Arr(*v),
                    decreases v@.len() - i,
                {
                    proof {
                        assert(decreases_to!(*self => self->Arr_0));
                        assert(decreases_to!(*v => v@));
                        assert(decreases_to!(v@ => v@[i as int]));
                    }
                    let c = v[i].copy();
                    out.push(c);
                    i = i + 1;
                }
                proof {
                    lemma_items(out@);
                    lemma_items(v@);
                    assert(items_view(out@) =~= items_view(v@));
                }
                Json::Arr(out)
            },
            Json::Obj(v) => {
                let mut out: Vec<Member> = Vec::new();
                let mut i: usize = 0;
                while i < v.len()
                    invariant
                        i <= v@.len(),
                        out@.len() == i,
                        forall|k: int|
                            0 <= k < i ==> (#[trigger] out@[k]).key@ == v@[k].key@ && out@[k].value@
                                == v@[k].value@,
                        *self == Json::Obj(*v),
                    decreases v@.len() - i,
                {
                    proof {
                        assert(decreases_to!(*self => self->Obj_0));
                        assert(decreases_to!(*v => v@));
                        assert(decreases_to!(v@ => v@[i as int]));
                        assert(decreases_to!(v@[i as int] => v@[i as int].value));
                    }
                    let c = v[i].value.copy();
                    out.push(Member { key: v[i].key.clone(), value: c });
                    i = i + 1;
                }
                proof {
                    lemma_members(out@);
                    lemma_members(v@);
                    assert(members_view(out@) =~= members_view(v@));
                }
                Json::Obj(out)
            },
        }
    }
}

pub open spec fn text_items(v: Seq<Seq<char>>) -> Seq<JsonView> {
    v.map_values(|s: Seq<char>| JsonView::Str(s))
}

pub fn copy_opt(o: &Option<Json>) -> (r: Option<Json>)
    ensures
        opt_json(r) == opt_json(*o),
{
    match o {
        Some(j) => Some(j.copy()),
        None => None,
    }
}

// ------------------------------------------------------------- the text

/// The string literal that writes `s`, as `serde_json::to_string` gives it.
pub uninterp spec fn quoted(s: Seq<char>) -> Seq<char>;

/// Calls `serde_json::to_string` on a string. It writes into memory and a
/// string has no part that it refuses, so it succeeds; what it writes depends
/// on the string alone.
#[verifier::external_body]
fn quote(s: &str) -> (r: String)
    ensures
        r@ == quoted(s@),
{
    serde_json::to_string(s).unwrap()
}

/// The compact text of a value: no white space, members in their order.
pub open spec fn written(v: JsonView) -> Seq<char>
    decreases v,
{
    match v {
        JsonView::Null => "null"@,
        JsonView::Bool(b) => if b {
            "true"@
        } else {
            "false"@
        },
        JsonView::Int(n) => signed_decimal(n),
        JsonView::Float(s) => s,
        JsonView::Str(s) => quoted(s),
        JsonView::Arr(a) => "["@ + joined(written_items(a), ","@) + "]"@,
        JsonView::Obj(m) => "{"@ + joined(written_members(m), ","@) + "}"@,
    }
}

pub open spec fn written_items(a: Seq<JsonView>) -> Seq<Seq<char>>
    decreases a,
{
    if a.len() == 0 {
        Seq::empty()
    } else {
        written_items(a.drop_last()).push(written(a.last()))
    }
}

pub open spec fn written_members(m: Seq<(Seq<char>, JsonView)>) -> Seq<Seq<char>>
    decreases m,
{
    if m.len() == 0 {
        Seq::empty()
    } else {
        written_members(m.drop_last()).push(quoted(m.last().0) + ":"@ + written(m.last().1))
    }
}

impl Json {
    /// This value as compact JSON text.
    pub fn write(&self) -> (r: String)
        ensures
            r@ == written(self@),
        decreases *self,
    {
        match self {
            Json::Null => "null".to_owned(),
            Json::Bool(b) => if *b {
                "true".to_owned()
            } else {
                "false".to_owned()
            },
            Json::Int(n) => dec_signed(*n),
            Json::Float(s) => s.clone(),
            Json::Str(s) => quote(s.as_str()),
            Json::Arr(v) => {
                let mut parts: Vec<String> = Vec::new();
                let mut i: usize = 0;
                proof {
                    lemma_items(v@);
                    assert(items_view(v@).take(0) =~= Seq::<JsonView>::empty());
                    assert(views(parts@) =~= Seq::<Seq<char>>::empty());
                }
                while i < v.len()
                    invariant
                        i <= v@.len(),
                        items_view(v@).len() == v@.len(),
                        views(parts@) == written_items(items_view(v@).take(i as int)),
                        *self == Json::Arr(*v),
                    decreases v@.len() - i,
                {
                    proof {
                        assert(decreases_to!(*self => self->Arr_0));
                        assert(decreases_to!(*v => v@));
                        assert(decreases_to!(v@ => v@[i as int]));
                        lemma_items(v@);
                        let t = items_view(v@).take(i + 1);
                        assert(t.drop_last() =~= items_view(v@).take(i as int));
                        assert(t.last() == v@[i as int]@);
                    }
                    let part = v[i].write();
                    let ghost before = parts@;
                    parts.push(part);
                    proof {
                        assert(views(parts@) =~= views(before).push(part@));
                    }
                    i = i + 1;
                }
                proof {
                    assert(items_view(v@).take(v@.len() as int) =~= items_view(v@));
                }
                let mut out = "[".to_owned();
                let body = join(&parts, ",");
                out.append(body.as_str());
                out.append("]");
                out
            },
            Json::Obj(v) => {
                let mut parts: Vec<String> = Vec::new();
                let mut i: usize = 0;
                proof {
                    lemma_members(v@);
                    assert(members_view(v@).take(0) =~= Seq::<(Seq<char>, JsonView)>::empty());
                    assert(views(parts@) =~= Seq::<Seq<char>>::empty());
                }
                while i < v.len()
                    invariant
                        i <= v@.len(),
                        members_view(v@).len() == v@.len(),
                        views(parts@) == written_members(members_view(v@).take(i as int)),
                        *self == Json::Obj(*v),
                    decreases v@.len() - i,
                {
                    proof {
                        assert(decreases_to!(*self => self->Obj_0));
                        assert(decreases_to!(*v => v@));
                        assert(decreases_to!(v@ => v@[i as int]));
                        assert(decreases_to!(v@[i as int] => v@[i as int].value));
                        lemma_members(v@);
                        let t = members_view(v@).take(i + 1);
                        assert(t.drop_last() =~= members_view(v@).take(i as int));
                        assert(t.last() == (v@[i as int].key@, v@[i as int].value@));
                    }
                    let mut part = quote(v[i].key.as_str());
                    part.append(":");
                    let value = v[i].value.write();
                    part.append(value.as_str());
                    let ghost before = parts@;
                    parts.push(part);
                    proof {
                        assert(views(parts@) =~= views(before).push(part@));
                    }
                    i = i + 1;
                }
                proof {
                    assert(members_view(v@).take(v@.len() as int) =~= members_view(v@));
                }
                let mut out = "{".to_owned();
                let body = join(&parts, ",");
                out.append(body.as_str());
                out.append("}");
                out
            },
        }
    }
}

/// `caps` where it is an object whose text takes at most `max` bytes.
pub open spec fn bounded_object(caps: Option<JsonView>, max: int) -> Option<JsonView> {
    match caps {
        Some(v) => if v.is_object() && crate::text::byte_len(written(v)) <= max {
            Some(v)
        } else {
            None
        },
        None => None,
    }
}

/// Keeps an object that is small enough, refuses everything else.
pub fn keep_object(caps: &Option<Json>, max: usize) -> (r: Option<Json>)
    ensures
        opt_json(r) == bounded_object(opt_json(*caps), max as int),
{
    match caps {
        Some(v) => {
            if !v.is_object() {
                return None;
            }
            let s = v.write();
            if crate::text::longer_than(s.as_str(), max) {
                None
            } else {
                Some(v.copy())
            }
        },
        None => None,
    }
}

/// A list is written between brackets and an object between braces, item by item
/// with a comma in between; a member is its name in quotes, a colon and its
/// value.
pub proof fn law_values_are_written_item_by_item(
    a: Seq<JsonView>,
    m: Seq<(Seq<char>, JsonView)>,
    key: Seq<char>,
    v: JsonView,
)
    ensures
        written(JsonView::Arr(seq![v])) == seq!['['] + written(v) + seq![']'],
        a.len() > 0 ==> written(JsonView::Arr(a.push(v))) == written(JsonView::Arr(a)).drop_last()
            + seq![','] + written(v) + seq![']'],
        written(JsonView::Obj(seq![(key, v)])) == seq!['{'] + quoted(key) + seq![':'] + written(v)
            + seq!['}'],
        m.len() > 0 ==> written(JsonView::Obj(m.push((key, v)))) == written(
            JsonView::Obj(m),
        ).drop_last() + seq![','] + quoted(key) + seq![':'] + written(v) + seq!['}'],
{
    reveal_strlit("[");
    reveal_strlit("]");
    reveal_strlit("{");
    reveal_strlit("}");
    reveal_strlit(",");
    reveal_strlit(":");
    lemma_items_one(v);
    lemma_members_one(key, v);
    assert("["@ =~= seq!['[']);
    assert("]"@ =~= seq![']']);
    assert("{"@ =~= seq!['{']);
    assert("}"@ =~= seq!['}']);
    assert(","@ =~= seq![',']);
    assert(":"@ =~= seq![':']);
    if a.len() > 0 {
        let b = a.push(v);
        assert(b.drop_last() =~= a);
        let ws = written_items(a);
        lemma_items_len(a);
        assert(written_items(b) == ws.push(written(v)));
        assert(ws.push(written(v)).drop_last() =~= ws);
        assert(written(JsonView::Arr(b)) =~= written(JsonView::Arr(a)).drop_last() + seq![',']
            + written(v) + seq![']']);
    }
    if m.len() > 0 {
        let n = m.push((key, v));
        assert(n.drop_last() =~= m);
        let ws = written_members(m);
        lemma_members_len(m);
        let w = quoted(key) + ":"@ + written(v);
        assert(written_members(n) == ws.push(w));
        assert(ws.push(w).drop_last() =~= ws);
        assert(written(JsonView::Obj(n)) =~= written(JsonView::Obj(m)).drop_last() + seq![',']
            + quoted(key) + seq![':'] + written(v) + seq!['}']);
    }
}

proof fn lemma_items_len(a: Seq<JsonView>)
    ensures
        written_items(a).len() == a.len(),
    decreases a.len(),
{
    if a.len() > 0 {
        lemma_items_len(a.drop_last());
    }
}

proof fn lemma_members_len(m: Seq<(Seq<char>, JsonView)>)
    ensures
        written_members(m).len() == m.len(),
    decreases m.len(),
{
    if m.len() > 0 {
        lemma_members_len(m.drop_last());
    }
}

proof fn lemma_items_one(v: JsonView)
    ensures
        written(JsonView::Arr(seq![v])) == "["@ + written(v) + "]"@,
{
    let a = seq![v];
    assert(a.drop_last() =~= Seq::<JsonView>::empty());
    assert(written_items(a.drop_last()) =~= Seq::<Seq<char>>::empty());
    assert(written_items(a) =~= seq![written(v)]);
}

proof fn lemma_members_one(key: Seq<char>, v: JsonView)
    ensures
        written(JsonView::Obj(seq![(key, v)])) =~= "{"@ + quoted(key) + ":"@ + written(v) + "}"@,
{
    let m = seq![(key, v)];
    assert(m.drop_last() =~= Seq::<(Seq<char>, JsonView)>::empty());
    assert(written_members(m.drop_last()) =~= Seq::<Seq<char>>::empty());
    assert(written_members(m) =~= seq![quoted(key) + ":"@ + written(v)]);
}

} // verus!
