//! Flattening a nested value into `(path, text)` pairs, and encoding the pairs
//! as `application/x-www-form-urlencoded` text.
use vstd::prelude::*;
use vstd::utf8::encode_utf8;
use crate::text::{decimal, signed_decimal, push_char, push_str, push_decimal, push_signed_decimal};
use crate::urlencode::error::{UrlEncodeError, ErrorView};

verus! {

/// A value to serialize, in the shapes the serializer tells apart. Integers of
/// every width go to `Int` or `UInt`; optional values and newtype structs are
/// their inner value (`None` and unit structs are `Unit`); unit variants,
/// strings and the text of floating-point numbers are `Str`; sequences,
/// tuples and tuple structs are `List`; maps are `Entries`; structs are
/// `Fields`.
#[derive(Debug)]
pub enum FormValue {
    Bool(bool),
    Int(i64),
    UInt(u64),
    Char(char),
    Str(String),
    Unit,
    Bytes(Vec<u8>),
    List(Vec<FormValue>),
    Entries(Vec<(FormValue, FormValue)>),
    Fields(Vec<(String, FormValue)>),
    NewtypeVariant(String, Box<FormValue>),
    TupleVariant(String, Vec<FormValue>),
    StructVariant(String, Vec<(String, FormValue)>),
}

/// Path and text pairs.
pub type Pairs = Seq<(Seq<char>, Seq<char>)>;

/// The pairs of a list of exec pairs.
pub open spec fn pairs_of(v: Seq<(String, String)>) -> Pairs {
    Seq::new(v.len(), |i: int| (v[i].0@, v[i].1@))
}

/// The path of a struct field or map entry `key` under `path`: the key alone
/// at the top, else `path[key]`.
pub open spec fn field_path(path: Seq<char>, key: Seq<char>) -> Seq<char> {
    if path.len() == 0 { key } else { path + seq!['['] + key + seq![']'] }
}

/// The path of the `i`-th element of a sequence under `path`: `path[i]`.
pub open spec fn index_path(path: Seq<char>, i: nat) -> Seq<char> {
    path + seq!['['] + decimal(i) + seq![']']
}

/// The path of the content of enum variant `name` under `path`: `path["name"]`.
pub open spec fn variant_path(path: Seq<char>, name: Seq<char>) -> Seq<char> {
    path + seq!['[', '"'] + name + seq!['"', ']']
}

/// The text of a leaf value.
pub open spec fn leaf_text(v: FormValue) -> Option<Seq<char>> {
    match v {
        FormValue::Bool(b) => Some(if b { "true"@ } else { "false"@ }),
        FormValue::Int(i) => Some(signed_decimal(i as int)),
        FormValue::UInt(u) => Some(decimal(u as nat)),
        FormValue::Char(c) => Some(seq![c]),
        FormValue::Str(s) => Some(s@),
        FormValue::Unit => Some("null"@),
        _ => None,
    }
}

/// The pairs of `v` placed at `path`, or the error serializing it meets.
pub open spec fn flatten(v: FormValue, path: Seq<char>) -> Result<Pairs, ErrorView>
    decreases v,
{
    match v {
        FormValue::Bytes(_) => Err(ErrorView { path: Some(path), message: "Bytes serializer not implemented"@ }),
        FormValue::List(items) => flatten_items(items@, path),
        FormValue::Entries(es) => flatten_entries(es@, path),
        FormValue::Fields(fs) => flatten_fields(fs@, path),
        FormValue::NewtypeVariant(n, inner) => flatten(*inner, variant_path(path, n@)),
        FormValue::TupleVariant(n, items) => flatten_items(items@, variant_path(path, n@)),
        FormValue::StructVariant(n, fs) => flatten_fields(fs@, variant_path(path, n@)),
        _ => Ok(seq![(path, leaf_text(v)->Some_0)]),
    }
}

/// The pairs of the elements of a sequence at `path`, element `i` at `path[i]`.
pub open spec fn flatten_items(s: Seq<FormValue>, path: Seq<char>) -> Result<Pairs, ErrorView>
    decreases s,
{
    if s.len() == 0 {
        Ok(Seq::empty())
    } else {
        match flatten_items(s.drop_last(), path) {
            Err(e) => Err(e),
            Ok(a) => match flatten(s.last(), index_path(path, (s.len() - 1) as nat)) {
                Err(e) => Err(e),
                Ok(b) => Ok(a + b),
            },
        }
    }
}

/// The pairs of the fields of a struct at `path`.
pub open spec fn flatten_fields(s: Seq<(String, FormValue)>, path: Seq<char>) -> Result<Pairs, ErrorView>
    decreases s,
{
    if s.len() == 0 {
        Ok(Seq::empty())
    } else {
        match flatten_fields(s.drop_last(), path) {
            Err(e) => Err(e),
            Ok(a) => match flatten(s.last().1, field_path(path, s.last().0@)) {
                Err(e) => Err(e),
                Ok(b) => Ok(a + b),
            },
        }
    }
}

/// The key text of a map entry: its key must serialize to exactly one pair
/// with an empty path.
pub open spec fn entry_key(k: FormValue, path: Seq<char>) -> Result<Seq<char>, ErrorView> {
    match flatten(k, Seq::empty()) {
        Err(e) => Err(e),
        Ok(kp) => if kp.len() != 1 {
            Err(ErrorView { path: Some(path), message: "Key serializer returned more than one output"@ })
        } else if kp[0].0.len() != 0 {
            Err(ErrorView { path: Some(path), message: "Key serializer returned non empty path"@ })
        } else {
            Ok(kp[0].1)
        },
    }
}

/// The pairs of the entries of a map at `path`.
pub open spec fn flatten_entries(s: Seq<(FormValue, FormValue)>, path: Seq<char>) -> Result<Pairs, ErrorView>
    decreases s,
{
    if s.len() == 0 {
        Ok(Seq::empty())
    } else {
        match flatten_entries(s.drop_last(), path) {
            Err(e) => Err(e),
            Ok(a) => match flatten(s.last().0, Seq::empty()) {
                Err(e) => Err(e),
                Ok(kp) => if kp.len() != 1 {
                    Err(ErrorView { path: Some(path), message: "Key serializer returned more than one output"@ })
                } else if kp[0].0.len() != 0 {
                    Err(ErrorView { path: Some(path), message: "Key serializer returned non empty path"@ })
                } else {
                    match flatten(s.last().1, field_path(path, kp[0].1)) {
                        Err(e) => Err(e),
                        Ok(b) => Ok(a + b),
                    }
                },
            },
        }
    }
}

/// The path the serializer is left at after serializing `v` at `path`: enum
/// variants move it into the variant.
pub open spec fn final_path(v: FormValue, path: Seq<char>) -> Seq<char>
    decreases v,
{
    match v {
        FormValue::NewtypeVariant(n, inner) => final_path(*inner, variant_path(path, n@)),
        FormValue::TupleVariant(n, _) => variant_path(path, n@),
        FormValue::StructVariant(n, _) => variant_path(path, n@),
        _ => path,
    }
}

proof fn lemma_items_settled(s: Seq<FormValue>, path: Seq<char>, k: int, j: int)
    requires
        0 <= k <= j <= s.len(),
        flatten_items(s.take(k), path) is Err,
    ensures
        flatten_items(s.take(j), path) == flatten_items(s.take(k), path),
    decreases j - k,
{
    if j > k {
        lemma_items_settled(s, path, k, j - 1);
        assert(s.take(j).drop_last() =~= s.take(j - 1));
    }
}

proof fn lemma_fields_settled(s: Seq<(String, FormValue)>, path: Seq<char>, k: int, j: int)
    requires
        0 <= k <= j <= s.len(),
        flatten_fields(s.take(k), path) is Err,
    ensures
        flatten_fields(s.take(j), path) == flatten_fields(s.take(k), path),
    decreases j - k,
{
    if j > k {
        lemma_fields_settled(s, path, k, j - 1);
        assert(s.take(j).drop_last() =~= s.take(j - 1));
    }
}

proof fn lemma_entries_settled(s: Seq<(FormValue, FormValue)>, path: Seq<char>, k: int, j: int)
    requires
        0 <= k <= j <= s.len(),
        flatten_entries(s.take(k), path) is Err,
    ensures
        flatten_entries(s.take(j), path) == flatten_entries(s.take(k), path),
    decreases j - k,
{
    if j > k {
        lemma_entries_settled(s, path, k, j - 1);
        assert(s.take(j).drop_last() =~= s.take(j - 1));
    }
}

/// The state of a serialization: the pairs so far and the current path.
#[derive(Debug)]
pub struct Serializer {
    pub output: Vec<(String, String)>,
    pub path: String,
}

/// The state of serializing a sequence: the index of the next element.
#[derive(Debug)]
pub struct SeqSerializer {
    pub index: usize,
}

/// The state of serializing a map: the path to return to after the current
/// entry's value, once its key was written.
#[derive(Debug)]
pub struct MapSerializer {
    pub last_path: Option<String>,
}

impl SeqSerializer {
    /// The state before the first element.
    pub fn new() -> (s: SeqSerializer)
        ensures
            s.index == 0,
    {
        SeqSerializer { index: 0 }
    }
}

impl MapSerializer {
    /// The state before the first entry.
    pub fn new() -> (m: MapSerializer)
        ensures
            m.last_path is None,
    {
        MapSerializer { last_path: None }
    }
}

} // verus!

verus! {

/// Whether a string is empty.
fn is_empty_str(s: &String) -> (b: bool)
    ensures
        b == (s@.len() == 0),
{
    s.as_str().is_empty()
}

/// `path["name"]`.
fn variant_path_of(path: &String, name: &String) -> (r: String)
    ensures
        r@ == variant_path(path@, name@),
{
    let mut r = path.clone();
    push_char(&mut r, '[');
    push_char(&mut r, '"');
    push_str(&mut r, name.as_str());
    push_char(&mut r, '"');
    push_char(&mut r, ']');
    assert(r@ =~= variant_path(path@, name@));
    r
}

/// The path of field or entry `key` under `path`.
fn field_path_of(path: &String, key: &String) -> (r: String)
    ensures
        r@ == field_path(path@, key@),
{
    if is_empty_str(path) {
        key.clone()
    } else {
        let mut r = path.clone();
        push_char(&mut r, '[');
        push_str(&mut r, key.as_str());
        push_char(&mut r, ']');
        assert(r@ =~= field_path(path@, key@));
        r
    }
}

impl Serializer {
    /// Adds one pair at the current path.
    fn push_leaf(&mut self, text: String)
        ensures
            final(self).path == old(self).path,
            pairs_of(final(self).output@) == pairs_of(old(self).output@).push((old(self).path@, text@)),
    {
        let p = self.path.clone();
        self.output.push((p, text));
        assert(pairs_of(self.output@) =~= pairs_of(old(self).output@).push((old(self).path@, text@)));
    }

    /// Serializes `v` at the current path, adding its pairs to the output.
    pub fn serialize(&mut self, v: &FormValue) -> (r: Result<(), UrlEncodeError>)
        ensures
            match flatten(*v, old(self).path@) {
                Ok(ps) => r is Ok && pairs_of(final(self).output@) == pairs_of(old(self).output@) + ps
                    && final(self).path@ == final_path(*v, old(self).path@),
                Err(e) => r matches Err(err) && err@ == e && err.urlencode_error is None,
            },
        decreases v, 0int,
    {
        let ghost p = self.path@;
        match v {
            FormValue::Bool(b) => {
                let t = if *b { "true".to_string() } else { "false".to_string() };
                self.push_leaf(t);
                Ok(())
            },
            FormValue::Int(i) => {
                let mut t = String::new();
                push_signed_decimal(&mut t, *i);
                self.push_leaf(t);
                Ok(())
            },
            FormValue::UInt(u) => {
                let mut t = String::new();
                push_decimal(&mut t, *u);
                self.push_leaf(t);
                Ok(())
            },
            FormValue::Char(c) => {
                let mut t = String::new();
                push_char(&mut t, *c);
                self.push_leaf(t);
                Ok(())
            },
            FormValue::Str(s) => {
                self.push_leaf(s.clone());
                Ok(())
            },
            FormValue::Unit => {
                self.push_leaf("null".to_string());
                Ok(())
            },
            FormValue::Bytes(_) => {
                Err(UrlEncodeError::new(Some(self.path.clone()), "Bytes serializer not implemented".to_string()))
            },
            FormValue::List(items) => self.serialize_items(items),
            FormValue::Entries(es) => self.serialize_entries(es),
            FormValue::Fields(fs) => self.serialize_fields(fs),
            FormValue::NewtypeVariant(n, inner) => {
                self.path = variant_path_of(&self.path, n);
                self.serialize(inner)
            },
            FormValue::TupleVariant(n, items) => {
                self.path = variant_path_of(&self.path, n);
                self.serialize_items(items)
            },
            FormValue::StructVariant(n, fs) => {
                self.path = variant_path_of(&self.path, n);
                self.serialize_fields(fs)
            },
        }
    }

    /// Serializes the elements of a sequence, element `i` at `path[i]`.
    fn serialize_items(&mut self, items: &Vec<FormValue>) -> (r: Result<(), UrlEncodeError>)
        ensures
            match flatten_items(items@, old(self).path@) {
                Ok(ps) => r is Ok && pairs_of(final(self).output@) == pairs_of(old(self).output@) + ps
                    && final(self).path == old(self).path,
                Err(e) => r matches Err(err) && err@ == e && err.urlencode_error is None,
            },
        decreases items, 2int,
    {
        let ghost base = self.path;
        let ghost out0 = pairs_of(self.output@);
        let mut seq = SeqSerializer::new();
        let n = items.len();
        assert(items@.take(0) =~= Seq::<FormValue>::empty());
        assert(out0 + Seq::<(Seq<char>, Seq<char>)>::empty() =~= out0);
        while seq.index < n
            invariant
                seq.index <= n == items@.len(),
                self.path == base,
                base == old(self).path,
                flatten_items(items@.take(seq.index as int), base@) matches Ok(a)
                    && pairs_of(self.output@) == out0 + a,
            decreases n - seq.index,
        {
            let i = seq.index;
            proof {
                assert(items@.take(i + 1).drop_last() =~= items@.take(i as int));
                assert(decreases_to!(items => items@[i as int]));
            }
            let ghost before = pairs_of(self.output@);
            match seq.serialize_element(self, &items[i]) {
                Err(e) => {
                    proof {
                        let t = items@.take(i + 1);
                        assert(t.last() == items@[i as int]);
                        assert(flatten_items(t, base@) == Err::<Pairs, ErrorView>(e@));
                        lemma_items_settled(items@, base@, i + 1, n as int);
                    }
                    assert(items@.take(n as int) =~= items@);
                    return Err(e);
                },
                Ok(()) => {
                    proof {
                        let a = flatten_items(items@.take(i as int), base@)->Ok_0;
                        let b = flatten(items@[i as int], index_path(base@, i as nat))->Ok_0;
                        assert(out0 + (a + b) =~= out0 + a + b);
                    }
                },
            }
        }
        assert(items@.take(n as int) =~= items@);
        Ok(())
    }

    /// Serializes one struct field at its field path, then returns to the
    /// current path.
    fn serialize_field(&mut self, key: &String, value: &FormValue) -> (r: Result<(), UrlEncodeError>)
        ensures
            match flatten(*value, field_path(old(self).path@, key@)) {
                Ok(ps) => r is Ok && pairs_of(final(self).output@) == pairs_of(old(self).output@) + ps
                    && final(self).path == old(self).path,
                Err(e) => r matches Err(err) && err@ == e && err.urlencode_error is None,
            },
        decreases value, 1int,
    {
        let last_path = self.path.clone();
        self.path = field_path_of(&last_path, key);
        match self.serialize(value) {
            Err(e) => return Err(e),
            Ok(()) => {},
        }
        self.path = last_path;
        Ok(())
    }

    /// Serializes the fields of a struct, in order.
    fn serialize_fields(&mut self, fields: &Vec<(String, FormValue)>) -> (r: Result<(), UrlEncodeError>)
        ensures
            match flatten_fields(fields@, old(self).path@) {
                Ok(ps) => r is Ok && pairs_of(final(self).output@) == pairs_of(old(self).output@) + ps
                    && final(self).path == old(self).path,
                Err(e) => r matches Err(err) && err@ == e && err.urlencode_error is None,
            },
        decreases fields, 2int,
    {
        let ghost base = self.path;
        let ghost out0 = pairs_of(self.output@);
        let n = fields.len();
        let mut i: usize = 0;
        assert(fields@.take(0) =~= Seq::<(String, FormValue)>::empty());
        assert(out0 + Seq::<(Seq<char>, Seq<char>)>::empty() =~= out0);
        while i < n
            invariant
                i <= n == fields@.len(),
                self.path == base,
                base == old(self).path,
                flatten_fields(fields@.take(i as int), base@) matches Ok(a)
                    && pairs_of(self.output@) == out0 + a,
            decreases n - i,
        {
            proof {
                assert(fields@.take(i + 1).drop_last() =~= fields@.take(i as int));
                assert(decreases_to!(fields => fields@[i as int].1));
            }
            match self.serialize_field(&fields[i].0, &fields[i].1) {
                Err(e) => {
                    proof {
                        let t = fields@.take(i + 1);
                        assert(t.last() == fields@[i as int]);
                        assert(flatten_fields(t, base@) == Err::<Pairs, ErrorView>(e@));
                        lemma_fields_settled(fields@, base@, i + 1, n as int);
                    }
                    assert(fields@.take(n as int) =~= fields@);
                    return Err(e);
                },
                Ok(()) => {
                    proof {
                        let a = flatten_fields(fields@.take(i as int), base@)->Ok_0;
                        let b = flatten(fields@[i as int].1, field_path(base@, fields@[i as int].0@))->Ok_0;
                        assert(out0 + (a + b) =~= out0 + a + b);
                    }
                },
            }
            i = i + 1;
        }
        assert(fields@.take(n as int) =~= fields@);
        Ok(())
    }

    /// Serializes the entries of a map, in order.
    fn serialize_entries(&mut self, entries: &Vec<(FormValue, FormValue)>) -> (r: Result<(), UrlEncodeError>)
        ensures
            match flatten_entries(entries@, old(self).path@) {
                Ok(ps) => r is Ok && pairs_of(final(self).output@) == pairs_of(old(self).output@) + ps
                    && final(self).path@ == old(self).path@,
                Err(e) => r matches Err(err) && err@ == e && err.urlencode_error is None,
            },
        decreases entries, 2int,
    {
        let ghost base = self.path@;
        let ghost out0 = pairs_of(self.output@);
        let mut map = MapSerializer::new();
        let n = entries.len();
        let mut i: usize = 0;
        assert(entries@.take(0) =~= Seq::<(FormValue, FormValue)>::empty());
        assert(out0 + Seq::<(Seq<char>, Seq<char>)>::empty() =~= out0);
        while i < n
            invariant
                i <= n == entries@.len(),
                self.path@ == base,
                base == old(self).path@,
                map.last_path is None,
                flatten_entries(entries@.take(i as int), base) matches Ok(a)
                    && pairs_of(self.output@) == out0 + a,
            decreases n - i,
        {
            proof {
                assert(entries@.take(i + 1).drop_last() =~= entries@.take(i as int));
                assert(decreases_to!(entries => entries@[i as int].0));
                assert(decreases_to!(entries => entries@[i as int].1));
            }
            match map.serialize_key(self, &entries[i].0) {
                Err(e) => {
                    proof {
                        let t = entries@.take(i + 1);
                        assert(t.last() == entries@[i as int]);
                        assert(flatten_entries(t, base) == Err::<Pairs, ErrorView>(e@));
                        lemma_entries_settled(entries@, base, i + 1, n as int);
                    }
                    assert(entries@.take(n as int) =~= entries@);
                    return Err(e);
                },
                Ok(()) => {},
            }
            match map.serialize_value(self, &entries[i].1) {
                Err(e) => {
                    proof {
                        let t = entries@.take(i + 1);
                        assert(t.last() == entries@[i as int]);
                        assert(flatten_entries(t, base) == Err::<Pairs, ErrorView>(e@));
                        lemma_entries_settled(entries@, base, i + 1, n as int);
                    }
                    assert(entries@.take(n as int) =~= entries@);
                    return Err(e);
                },
                Ok(()) => {
                    proof {
                        let a = flatten_entries(entries@.take(i as int), base)->Ok_0;
                        let kt = entry_key(entries@[i as int].0, base)->Ok_0;
                        let b = flatten(entries@[i as int].1, field_path(base, kt))->Ok_0;
                        assert(out0 + (a + b) =~= out0 + a + b);
                    }
                },
            }
            i = i + 1;
        }
        assert(entries@.take(n as int) =~= entries@);
        Ok(())
    }
}

impl SeqSerializer {
    /// Serializes the next element of the sequence at `path[index]`, then
    /// returns to the sequence's path.
    pub fn serialize_element(&mut self, ser: &mut Serializer, value: &FormValue) -> (r: Result<(), UrlEncodeError>)
        requires
            old(self).index < usize::MAX,
        ensures
            match flatten(*value, index_path(old(ser).path@, old(self).index as nat)) {
                Ok(ps) => r is Ok && pairs_of(final(ser).output@) == pairs_of(old(ser).output@) + ps
                    && final(ser).path == old(ser).path && final(self).index == old(self).index + 1,
                Err(e) => r matches Err(err) && err@ == e && err.urlencode_error is None,
            },
        decreases value, 1int,
    {
        let path = ser.path.clone();
        let mut element_path = path.clone();
        push_char(&mut element_path, '[');
        push_decimal(&mut element_path, self.index as u64);
        push_char(&mut element_path, ']');
        assert(element_path@ =~= index_path(path@, self.index as nat));
        ser.path = element_path;
        match ser.serialize(value) {
            Err(e) => return Err(e),
            Ok(()) => {},
        }
        ser.path = path;
        self.index = self.index + 1;
        Ok(())
    }
}

impl MapSerializer {
    /// Serializes the key of the next entry: it must come to exactly one pair
    /// with an empty path, whose text extends the path for the entry's value.
    /// A key while another is pending is refused and changes nothing. Once
    /// the key is taken up, the map's path is kept as pending whether the key
    /// serializes or not; the output never changes, and the path changes only
    /// for a key that serializes.
    pub fn serialize_key(&mut self, ser: &mut Serializer, key: &FormValue) -> (r: Result<(), UrlEncodeError>)
        ensures
            final(ser).output@ == old(ser).output@,
            match old(self).last_path {
                Some(p) => r matches Err(err) && err@.path == Some(p@) && err.urlencode_error is None
                    && err@.message == "serialize_key called with last_path = Some"@
                    && final(self).last_path == old(self).last_path
                    && final(ser).path == old(ser).path,
                None => (final(self).last_path matches Some(p) && p@ == old(ser).path@)
                    && match entry_key(*key, old(ser).path@) {
                        Ok(kt) => r is Ok && final(ser).path@ == field_path(old(ser).path@, kt),
                        Err(e) => r matches Err(err) && err@ == e && err.urlencode_error is None && final(ser).path == old(ser).path,
                    },
            },
        decreases key, 1int,
    {
        match &self.last_path {
            Some(_) => {
                return Err(UrlEncodeError::new(clone_path(&self.last_path), "serialize_key called with last_path = Some".to_string()));
            },
            None => {},
        }
        self.last_path = Some(ser.path.clone());
        let mut child = Serializer { output: Vec::new(), path: String::new() };
        assert(pairs_of(child.output@) =~= Seq::<(Seq<char>, Seq<char>)>::empty());
        match child.serialize(key) {
            Err(e) => return Err(e),
            Ok(()) => {},
        }
        if child.output.len() != 1 {
            return Err(UrlEncodeError::new(clone_path(&self.last_path), "Key serializer returned more than one output".to_string()));
        }
        let (key_path, key_val) = child.output.pop().unwrap();
        assert(pairs_of(old(ser).output@) == pairs_of(ser.output@));
        proof {
            let kp = flatten(*key, Seq::empty())->Ok_0;
            assert(pairs_of(seq![(key_path, key_val)]) =~= kp);
        }
        if !is_empty_str(&key_path) {
            return Err(UrlEncodeError::new(clone_path(&self.last_path), "Key serializer returned non empty path".to_string()));
        }
        ser.path = field_path_of(&ser.path, &key_val);
        Ok(())
    }

    /// Serializes the value of the current entry at the path its key gave,
    /// then returns to the map's path.
    pub fn serialize_value(&mut self, ser: &mut Serializer, value: &FormValue) -> (r: Result<(), UrlEncodeError>)
        requires
            old(self).last_path is Some,
        ensures
            match flatten(*value, old(ser).path@) {
                Ok(ps) => r is Ok && pairs_of(final(ser).output@) == pairs_of(old(ser).output@) + ps
                    && final(ser).path == old(self).last_path->Some_0 && final(self).last_path is None,
                Err(e) => r matches Err(err) && err@ == e && err.urlencode_error is None,
            },
        decreases value, 1int,
    {
        match ser.serialize(value) {
            Err(e) => return Err(e),
            Ok(()) => {},
        }
        let tmp = self.last_path.take();
        ser.path = tmp.unwrap();
        Ok(())
    }
}

/// A copy of an optional path.
fn clone_path(p: &Option<String>) -> (r: Option<String>)
    ensures
        r == *p,
{
    match p {
        Some(s) => Some(s.clone()),
        None => None,
    }
}

/// The pairs of `value`: every leaf with its bracketed path.
pub fn to_form_pairs(value: &FormValue) -> (r: Result<Vec<(String, String)>, UrlEncodeError>)
    ensures
        match flatten(*value, Seq::empty()) {
            Ok(ps) => r matches Ok(v) && pairs_of(v@) == ps,
            Err(e) => r matches Err(err) && err@ == e && err.urlencode_error is None,
        },
{
    let mut serializer = Serializer { output: Vec::new(), path: String::new() };
    assert(pairs_of(serializer.output@) =~= Seq::<(Seq<char>, Seq<char>)>::empty());
    match serializer.serialize(value) {
        Err(e) => return Err(e),
        Ok(()) => {},
    }
    assert(pairs_of(serializer.output@) =~= flatten(*value, Seq::empty())->Ok_0);
    Ok(serializer.output)
}

} // verus!

verus! {

/// Bytes that form-urlencoding writes as they are: ASCII letters, digits and
/// `*`, `-`, `.`, `_`.
pub open spec fn byte_kept(b: u8) -> bool {
    b == 42 || b == 45 || b == 46 || (48 <= b <= 57) || (65 <= b <= 90) || b == 95 || (97 <= b <= 122)
}

/// An upper-case hexadecimal digit.
pub open spec fn hex_upper_digit(d: nat) -> char {
    if d < 10 {
        decimal(d)[0]
    } else if d == 10 { 'A' } else if d == 11 { 'B' } else if d == 12 { 'C' }
    else if d == 13 { 'D' } else if d == 14 { 'E' } else { 'F' }
}

/// The form-urlencoding of one byte: itself, `+` for a space, else `%XX`.
pub open spec fn form_byte(b: u8) -> Seq<char> {
    if byte_kept(b) {
        seq![b as char]
    } else if b == 32 {
        seq!['+']
    } else {
        seq!['%', hex_upper_digit((b / 16) as nat), hex_upper_digit((b % 16) as nat)]
    }
}

/// The form-urlencoding of a byte string.
pub open spec fn form_bytes(bs: Seq<u8>) -> Seq<char>
    decreases bs.len(),
{
    if bs.len() == 0 {
        Seq::empty()
    } else {
        form_bytes(bs.drop_last()) + form_byte(bs.last())
    }
}

/// The form-urlencoding of a text: of its UTF-8 bytes.
pub open spec fn form_component(s: Seq<char>) -> Seq<char> {
    form_bytes(encode_utf8(s))
}

/// One encoded pair: `key=value`.
pub open spec fn form_pair(p: (Seq<char>, Seq<char>)) -> Seq<char> {
    form_component(p.0) + seq!['='] + form_component(p.1)
}

/// Encoded pairs joined by `&`.
pub open spec fn form_encode(ps: Pairs) -> Seq<char>
    decreases ps.len(),
{
    if ps.len() == 0 {
        Seq::empty()
    } else if ps.len() == 1 {
        form_pair(ps[0])
    } else {
        form_encode(ps.drop_last()) + seq!['&'] + form_pair(ps.last())
    }
}

/// `serde_urlencoded::to_string` on a list of string pairs: each key and
/// value form-urlencoded from its UTF-8 bytes, joined as `key=value` and
/// separated by `&`. For string pairs it always succeeds.
#[verifier::external_body]
fn encode_pairs(pairs: &Vec<(String, String)>) -> (r: Result<String, serde_urlencoded::ser::Error>)
    ensures
        r is Ok,
        r is Ok ==> r->Ok_0@ == form_encode(pairs_of(pairs@)),
{
    serde_urlencoded::to_string(pairs)
}

/// The `application/x-www-form-urlencoded` text of `value`: its pairs, each
/// key and value encoded, joined by `&`.
pub fn to_string(value: &FormValue) -> (r: Result<String, UrlEncodeError>)
    ensures
        match flatten(*value, Seq::empty()) {
            Ok(ps) => r matches Ok(s) && s@ == form_encode(ps),
            Err(e) => r matches Err(err) && err@ == e && err.urlencode_error is None,
        },
{
    let res = match to_form_pairs(value) {
        Ok(res) => res,
        Err(e) => return Err(e),
    };
    match encode_pairs(&res) {
        Ok(s) => Ok(s),
        Err(e) => Err(UrlEncodeError::from_urlencoded(e)),
    }
}

} // verus!
