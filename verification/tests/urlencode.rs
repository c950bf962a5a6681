use content_managment::urlencode::ser::{to_string, to_form_pairs, FormValue, MapSerializer, Serializer};

fn s(t: &str) -> String {
    t.to_string()
}

#[test]
fn test_struct() {
    let test = FormValue::Fields(vec![
        (s("int"), FormValue::UInt(1)),
        (
            s("nested"),
            FormValue::Fields(vec![
                (s("val"), FormValue::Str(s("hello"))),
                (s("included"), FormValue::Bool(true)),
            ]),
        ),
        (s("seq"), FormValue::List(vec![FormValue::Str(s("a")), FormValue::Str(s("b"))])),
    ]);

    let res = to_string(&test).unwrap();

    let expected = "int=1&nested%5Bval%5D=hello&nested%5Bincluded%5D=true&seq%5B0%5D=a&seq%5B1%5D=b";

    assert_eq!(res, expected)
}

#[test]
fn top_level_sequence_uses_bracketed_indices() {
    let v = FormValue::List(vec![FormValue::Int(-5), FormValue::Unit, FormValue::Char('x')]);
    let pairs = to_form_pairs(&v).unwrap();
    assert_eq!(
        pairs,
        vec![(s("[0]"), s("-5")), (s("[1]"), s("null")), (s("[2]"), s("x"))]
    );
}

#[test]
fn map_entries_extend_the_path() {
    let v = FormValue::Fields(vec![(
        s("m"),
        FormValue::Entries(vec![
            (FormValue::Str(s("k1")), FormValue::UInt(7)),
            (FormValue::UInt(2), FormValue::List(vec![FormValue::Bool(false)])),
        ]),
    )]);
    let pairs = to_form_pairs(&v).unwrap();
    assert_eq!(pairs, vec![(s("m[k1]"), s("7")), (s("m[2][0]"), s("false"))]);
}

#[test]
fn top_level_map_keys_stand_alone() {
    let v = FormValue::Entries(vec![(FormValue::Str(s("a b")), FormValue::Str(s("c&d")))]);
    assert_eq!(to_string(&v).unwrap(), "a+b=c%26d");
}

#[test]
fn variants_are_quoted_in_the_path() {
    let v = FormValue::Fields(vec![(
        s("e"),
        FormValue::NewtypeVariant(s("V"), Box::new(FormValue::UInt(3))),
    )]);
    let pairs = to_form_pairs(&v).unwrap();
    assert_eq!(pairs, vec![(s("e[\"V\"]"), s("3"))]);
    let t = FormValue::TupleVariant(s("T"), vec![FormValue::UInt(1)]);
    assert_eq!(to_form_pairs(&t).unwrap(), vec![(s("[\"T\"][0]"), s("1"))]);
    let st = FormValue::StructVariant(s("S"), vec![(s("f"), FormValue::UInt(1))]);
    assert_eq!(to_form_pairs(&st).unwrap(), vec![(s("[\"S\"][f]"), s("1"))]);
}

#[test]
fn bytes_are_refused_with_their_path() {
    let v = FormValue::Fields(vec![(s("b"), FormValue::Bytes(vec![1, 2]))]);
    let e = to_form_pairs(&v).err().unwrap();
    assert_eq!(e.path, Some(s("b")));
    assert_eq!(e.message, s("Bytes serializer not implemented"));
    assert_eq!(e.to_string(), "UrlEncodeError [b](Bytes serializer not implemented)");
}

#[test]
fn compound_map_keys_are_refused() {
    let two = FormValue::Entries(vec![(
        FormValue::List(vec![FormValue::UInt(1), FormValue::UInt(2)]),
        FormValue::UInt(0),
    )]);
    let e = to_form_pairs(&two).err().unwrap();
    assert_eq!(e.message, s("Key serializer returned more than one output"));
    assert_eq!(e.path, Some(s("")));

    let nested = FormValue::Fields(vec![(
        s("m"),
        FormValue::Entries(vec![(FormValue::List(vec![FormValue::UInt(1)]), FormValue::UInt(0))]),
    )]);
    let e = to_form_pairs(&nested).err().unwrap();
    assert_eq!(e.message, s("Key serializer returned non empty path"));
    assert_eq!(e.path, Some(s("m")));
}

#[test]
fn non_ascii_text_is_percent_encoded_from_utf8() {
    let v = FormValue::Fields(vec![(s("k"), FormValue::Str(s("é*~")))]);
    assert_eq!(to_string(&v).unwrap(), "k=%C3%A9*%7E");
}

#[test]
fn map_keys_are_taken_one_at_a_time() {
    let mut ser = Serializer { output: vec![], path: s("cart") };
    let mut map = MapSerializer::new();
    assert!(map.serialize_key(&mut ser, &FormValue::Str(s("a"))).is_ok());
    assert_eq!(ser.path, "cart[a]");
    assert_eq!(map.last_path, Some(s("cart")));
    let e = map.serialize_key(&mut ser, &FormValue::Str(s("b"))).unwrap_err();
    assert_eq!(e.path, Some(s("cart")));
    assert_eq!(e.message, "serialize_key called with last_path = Some");
    assert_eq!(ser.path, "cart[a]");
    assert!(ser.output.is_empty());
    assert!(map.serialize_value(&mut ser, &FormValue::UInt(1)).is_ok());
    assert_eq!(ser.path, "cart");
    assert_eq!(ser.output, vec![(s("cart[a]"), s("1"))]);
    let bad = map.serialize_key(&mut ser, &FormValue::List(vec![FormValue::UInt(1), FormValue::UInt(2)]));
    assert_eq!(bad.unwrap_err().message, "Key serializer returned more than one output");
    assert_eq!(ser.path, "cart");
    assert_eq!(map.last_path, Some(s("cart")));
}
