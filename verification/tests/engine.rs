use core_json::{ConstStack, Deserializer, GrowStack, JsonError, StackError, Type};

fn new_deserializer(json: &[u8]) -> Deserializer<ConstStack<128>> {
    Deserializer::<ConstStack<128>>::new(json.to_vec()).unwrap()
}

#[test]
fn test_read() {
    let serialization: &[u8] = br#"{ "hello": "goodbye" }"#;

    let mut deserializer = new_deserializer(serialization);
    let value = deserializer.value().unwrap();
    let mut fields = value.fields(&mut deserializer).unwrap();
    let mut field = fields.next(&mut deserializer).unwrap().unwrap();
    assert_eq!(field.key(&mut deserializer).unwrap(), "hello");
    assert_eq!(
        field.value(&mut deserializer).unwrap().to_str(&mut deserializer).unwrap(),
        "goodbye"
    );
    assert!(fields.next(&mut deserializer).is_none());
}

#[test]
fn end_to_end_object() {
    // The root is an object; "a" holds the exact integer 1; "b" holds an
    // array of a bool, a null, and a string.
    let mut d = new_deserializer(br#"{"a":1,"b":[true,null,"x"]}"#);
    let root = d.value().unwrap();
    assert!(matches!(root.kind(&mut d).unwrap(), Type::Object));
    let mut fields = root.fields(&mut d).unwrap();

    let mut field_a = fields.next(&mut d).unwrap().unwrap();
    assert_eq!(field_a.key(&mut d).unwrap(), "a");
    let value_a = field_a.value(&mut d).unwrap();
    assert!(matches!(value_a.kind(&mut d).unwrap(), Type::Number));
    let number = value_a.to_number(&mut d).unwrap();
    assert_eq!(number.i64(), Some(1));

    let mut field_b = fields.next(&mut d).unwrap().unwrap();
    assert_eq!(field_b.key(&mut d).unwrap(), "b");
    let value_b = field_b.value(&mut d).unwrap();
    let mut items = value_b.iterate(&mut d).unwrap();
    assert_eq!(items.next(&mut d).unwrap().unwrap().to_bool(&mut d).unwrap(), true);
    items.next(&mut d).unwrap().unwrap().to_null(&mut d).unwrap();
    assert_eq!(items.next(&mut d).unwrap().unwrap().to_str(&mut d).unwrap(), "x");
    assert!(items.next(&mut d).is_none());

    assert!(fields.next(&mut d).is_none());
}

#[test]
fn malformed_inputs() {
    // A trailing comma inside an object.
    {
        let mut d = new_deserializer(br#"{"a":1,}"#);
        let root = d.value().unwrap();
        let mut fields = root.fields(&mut d).unwrap();
        let mut field = fields.next(&mut d).unwrap().unwrap();
        assert_eq!(field.key(&mut d).unwrap(), "a");
        let value = field.value(&mut d).unwrap();
        assert!(matches!(
            value.to_number(&mut d).unwrap_err(),
            JsonError::TrailingComma
        ));
    }
    // A missing colon between key and value.
    {
        let mut d = new_deserializer(br#"{"a" 1}"#);
        let root = d.value().unwrap();
        let mut fields = root.fields(&mut d).unwrap();
        let mut field = fields.next(&mut d).unwrap().unwrap();
        assert_eq!(field.key(&mut d).unwrap(), "a");
        assert!(matches!(
            field.value(&mut d).unwrap_err(),
            JsonError::InvalidKeyValueDelimiter
        ));
    }
    // A leading zero in a number literal.
    {
        let mut d = new_deserializer(br#"{"a":01}"#);
        let root = d.value().unwrap();
        let mut fields = root.fields(&mut d).unwrap();
        let field = fields.next(&mut d).unwrap().unwrap();
        let value = field.value(&mut d).unwrap();
        assert!(matches!(
            value.to_number(&mut d).unwrap_err(),
            JsonError::InvalidValue
        ));
    }
    // A key which is not a string.
    {
        let mut d = new_deserializer(br#"{1:2}"#);
        let root = d.value().unwrap();
        let mut fields = root.fields(&mut d).unwrap();
        assert!(matches!(
            fields.next(&mut d).unwrap().unwrap_err(),
            JsonError::InvalidKey
        ));
    }
    // A misspelled literal.
    {
        let mut d = new_deserializer(br#"[nulx]"#);
        let root = d.value().unwrap();
        let mut items = root.iterate(&mut d).unwrap();
        let value = items.next(&mut d).unwrap().unwrap();
        assert!(matches!(
            value.to_null(&mut d).unwrap_err(),
            JsonError::InvalidValue
        ));
    }
    // Truncated input surfaces the read error.
    {
        let mut d = new_deserializer(br#"{"a":1"#);
        let root = d.value().unwrap();
        let mut fields = root.fields(&mut d).unwrap();
        let field = fields.next(&mut d).unwrap().unwrap();
        let value = field.value(&mut d).unwrap();
        assert!(matches!(
            value.to_number(&mut d).unwrap_err(),
            JsonError::ReadError(_)
        ));
    }
    // A bare scalar at the root is rejected.
    {
        let mut d = Deserializer::<ConstStack<128>>::new(b"5".to_vec()).unwrap();
        assert!(matches!(d.value().unwrap_err(), JsonError::TypeError));
    }
    // The wrong extraction for the value's type.
    {
        let mut d = new_deserializer(br#"[1]"#);
        let root = d.value().unwrap();
        let mut items = root.iterate(&mut d).unwrap();
        let value = items.next(&mut d).unwrap().unwrap();
        assert!(matches!(value.to_bool(&mut d).unwrap_err(), JsonError::TypeError));
    }
}

#[test]
fn reuse_refused() {
    let mut d = new_deserializer(br#"[1]"#);
    let root = d.value().unwrap();
    let mut items = root.iterate(&mut d).unwrap();
    assert_eq!(
        items.next(&mut d).unwrap().unwrap().to_number(&mut d).unwrap().i64(),
        Some(1)
    );
    assert!(items.next(&mut d).is_none());
    // The root value was already consumed: the deserializer is single-use.
    assert!(matches!(d.value().unwrap_err(), JsonError::ReusedDeserializer));
}

#[test]
fn depth_exceeded() {
    // Each array level holds two stack entries; a capacity of four refuses
    // deep nesting with a depth error, never a crash.
    let json = b"[[[[[[[[[[".to_vec();
    let mut d = Deserializer::<ConstStack<1>>::new(json.clone()).unwrap();
    let root = d.value().unwrap();
    let mut result = None;
    let mut iter = root.iterate(&mut d).unwrap();
    for _ in 0..8 {
        match iter.next(&mut d).unwrap() {
            Ok(element) => match element.iterate(&mut d) {
                Ok(inner) => iter = inner,
                Err(e) => {
                    result = Some(e);
                    break;
                },
            },
            Err(e) => {
                result = Some(e);
                break;
            },
        }
    }
    assert!(matches!(
        result.unwrap(),
        JsonError::StackError(StackError::StackTooDeep)
    ));

    // The growable stack accepts the same nesting without a bound.
    let mut d = Deserializer::<GrowStack>::new(json).unwrap();
    let root = d.value().unwrap();
    let mut iter = root.iterate(&mut d).unwrap();
    for _ in 0..8 {
        iter = iter.next(&mut d).unwrap().unwrap().iterate(&mut d).unwrap();
    }
}

#[test]
fn skip_on_dispose_matches_full_consumption() {
    let json: &[u8] = br#"[[1,2],3]"#;

    // Fully consuming the inner array, then reading the sibling.
    let mut d = new_deserializer(json);
    let root = d.value().unwrap();
    let mut items = root.iterate(&mut d).unwrap();
    let inner = items.next(&mut d).unwrap().unwrap();
    let mut inner_items = inner.iterate(&mut d).unwrap();
    assert_eq!(
        inner_items.next(&mut d).unwrap().unwrap().to_number(&mut d).unwrap().i64(),
        Some(1)
    );
    assert_eq!(
        inner_items.next(&mut d).unwrap().unwrap().to_number(&mut d).unwrap().i64(),
        Some(2)
    );
    assert!(inner_items.next(&mut d).is_none());
    let full = items.next(&mut d).unwrap().unwrap().to_number(&mut d).unwrap().i64();
    assert!(items.next(&mut d).is_none());

    // Disposing the inner array before reading anything of it.
    let mut d = new_deserializer(json);
    let root = d.value().unwrap();
    let mut items = root.iterate(&mut d).unwrap();
    items.next(&mut d).unwrap().unwrap().dispose(&mut d);
    let disposed = items.next(&mut d).unwrap().unwrap().to_number(&mut d).unwrap().i64();
    assert!(items.next(&mut d).is_none());
    assert_eq!(full, disposed);
    assert_eq!(disposed, Some(3));

    // Disposing the inner iterator after one element.
    let mut d = new_deserializer(json);
    let root = d.value().unwrap();
    let mut items = root.iterate(&mut d).unwrap();
    let inner = items.next(&mut d).unwrap().unwrap();
    let mut inner_items = inner.iterate(&mut d).unwrap();
    assert_eq!(
        inner_items.next(&mut d).unwrap().unwrap().to_number(&mut d).unwrap().i64(),
        Some(1)
    );
    inner_items.dispose(&mut d);
    assert_eq!(
        items.next(&mut d).unwrap().unwrap().to_number(&mut d).unwrap().i64(),
        Some(3)
    );
}

#[test]
fn skip_on_field_dispose() {
    let json: &[u8] = br#"{"a":{"x":[1,2,{}]},"b":2}"#;

    // Dispose the first field entirely, key unread.
    let mut d = new_deserializer(json);
    let root = d.value().unwrap();
    let mut fields = root.fields(&mut d).unwrap();
    fields.next(&mut d).unwrap().unwrap().dispose(&mut d);
    let mut field_b = fields.next(&mut d).unwrap().unwrap();
    assert_eq!(field_b.key(&mut d).unwrap(), "b");
    assert_eq!(
        field_b.value(&mut d).unwrap().to_number(&mut d).unwrap().i64(),
        Some(2)
    );
    assert!(fields.next(&mut d).is_none());

    // Read the first key, then dispose the field before its value.
    let mut d = new_deserializer(json);
    let root = d.value().unwrap();
    let mut fields = root.fields(&mut d).unwrap();
    let mut field_a = fields.next(&mut d).unwrap().unwrap();
    assert_eq!(field_a.key(&mut d).unwrap(), "a");
    field_a.dispose(&mut d);
    let mut field_b = fields.next(&mut d).unwrap().unwrap();
    assert_eq!(field_b.key(&mut d).unwrap(), "b");
    assert_eq!(
        field_b.value(&mut d).unwrap().to_number(&mut d).unwrap().i64(),
        Some(2)
    );

    // Dispose a string value, then keep reading.
    let mut d = new_deserializer(br#"{"a":"long string value","b":2}"#);
    let root = d.value().unwrap();
    let mut fields = root.fields(&mut d).unwrap();
    fields.next(&mut d).unwrap().unwrap().dispose(&mut d);
    let mut field_b = fields.next(&mut d).unwrap().unwrap();
    assert_eq!(field_b.key(&mut d).unwrap(), "b");
    assert_eq!(
        field_b.value(&mut d).unwrap().to_number(&mut d).unwrap().i64(),
        Some(2)
    );
}

#[test]
fn surrogate_pairs() {
    // A valid pair decodes to the single scalar value.
    let mut d = new_deserializer(br#"["\ud83d\ude00"]"#);
    let root = d.value().unwrap();
    let mut items = root.iterate(&mut d).unwrap();
    let value = items.next(&mut d).unwrap().unwrap();
    assert_eq!(value.to_str(&mut d).unwrap(), "\u{1F600}");
    assert!(items.next(&mut d).is_none());

    // The same character written directly as UTF-8 decodes identically.
    let mut d = new_deserializer("[\"\u{1F600}\"]".as_bytes());
    let root = d.value().unwrap();
    let mut items = root.iterate(&mut d).unwrap();
    let value = items.next(&mut d).unwrap().unwrap();
    assert_eq!(value.to_str(&mut d).unwrap(), "\u{1F600}");

    // An unpaired high surrogate fails only that string's decode: the
    // sibling can still be read afterwards.
    let mut d = new_deserializer(br#"["\ud83dxy",5]"#);
    let root = d.value().unwrap();
    let mut items = root.iterate(&mut d).unwrap();
    let value = items.next(&mut d).unwrap().unwrap();
    assert!(matches!(value.to_str(&mut d).unwrap_err(), JsonError::NotUtf8));
    assert_eq!(
        items.next(&mut d).unwrap().unwrap().to_number(&mut d).unwrap().i64(),
        Some(5)
    );
    assert!(items.next(&mut d).is_none());

    // A high surrogate followed by an escape outside the low-surrogate
    // range does not combine: only that string's decode fails.
    let mut d = new_deserializer(br#"["\ud800\ue000",7]"#);
    let root = d.value().unwrap();
    let mut items = root.iterate(&mut d).unwrap();
    let value = items.next(&mut d).unwrap().unwrap();
    assert!(matches!(value.to_str(&mut d).unwrap_err(), JsonError::NotUtf8));
    assert_eq!(
        items.next(&mut d).unwrap().unwrap().to_number(&mut d).unwrap().i64(),
        Some(7)
    );
    assert!(items.next(&mut d).is_none());

    // A lone low surrogate is equally local to the string.
    let mut d = new_deserializer(br#"["\udc00",6]"#);
    let root = d.value().unwrap();
    let mut items = root.iterate(&mut d).unwrap();
    let value = items.next(&mut d).unwrap().unwrap();
    assert!(matches!(value.to_str(&mut d).unwrap_err(), JsonError::NotUtf8));
    assert_eq!(
        items.next(&mut d).unwrap().unwrap().to_number(&mut d).unwrap().i64(),
        Some(6)
    );
}

#[test]
fn escapes_and_whitespace() {
    let mut d = new_deserializer(b" \t\r\n [ \"a\\n\\t\\\"\\\\b\\u0041\" , -12 ] ");
    let root = d.value().unwrap();
    let mut items = root.iterate(&mut d).unwrap();
    assert_eq!(
        items.next(&mut d).unwrap().unwrap().to_str(&mut d).unwrap(),
        "a\n\t\"\\bA"
    );
    assert_eq!(
        items.next(&mut d).unwrap().unwrap().to_number(&mut d).unwrap().i64(),
        Some(-12)
    );
    assert!(items.next(&mut d).is_none());
}

#[test]
fn trailing_bytes_not_rejected() {
    // Bytes after the root value are not this engine's concern.
    let mut d = new_deserializer(br#"[1] trailing"#);
    let root = d.value().unwrap();
    let mut items = root.iterate(&mut d).unwrap();
    assert_eq!(
        items.next(&mut d).unwrap().unwrap().to_number(&mut d).unwrap().i64(),
        Some(1)
    );
    assert!(items.next(&mut d).is_none());
}

#[test]
fn stale_cursor_refused() {
    // Asking for the next element while the previous one is outstanding is a
    // programmer error: it is reported, and the engine state is untouched.
    let mut d = new_deserializer(br#"[1,2]"#);
    let root = d.value().unwrap();
    let mut items = root.iterate(&mut d).unwrap();
    let first = items.next(&mut d).unwrap().unwrap();
    assert!(matches!(
        items.next(&mut d).unwrap().unwrap_err(),
        JsonError::InternalError
    ));
    // Consuming the outstanding element repairs the flow.
    assert_eq!(first.to_number(&mut d).unwrap().i64(), Some(1));
    assert_eq!(
        items.next(&mut d).unwrap().unwrap().to_number(&mut d).unwrap().i64(),
        Some(2)
    );
    assert!(items.next(&mut d).is_none());
}
