use chronos_collector::zend_helpers::{
    amqp_application_header, arg_array_key_string_array, arg_array_str_key_string,
    arg_is_instance_of, arg_long, arg_object, arg_object_handle, arg_scalar_string,
    arg_string_array, arg_string_bytes, call_object_method_string, capture_scalar_arguments,
    curl_effective_url, curl_info, defining_file, exception_identity, function_facts,
    function_name, function_ptr, inject_amqp_application_headers, inject_array_entries,
    inject_property_array_entries, is_internal_function, object_class_name, object_instance_of,
    object_property_array_has_str_key, object_property_bool, object_property_bytes,
    object_property_long, object_property_object, object_property_string,
    object_property_table_string, retval_array_len, retval_is_true, retval_object_handle,
    retval_string_bytes, scalar_to_string, strict_string, string_retval, table_field,
    this_object_handle, ArgumentType, Call, Function, Key, Object, Zval,
};

fn text(value: &str) -> Zval {
    Zval::Str(value.as_bytes().to_vec())
}

fn entry(key: &str, value: Zval) -> (Key, Zval) {
    (Key::Str(key.to_owned()), value)
}

fn object(classes: &[&str], properties: Vec<(&str, Zval)>) -> Object {
    Object {
        handle: 11,
        classes: classes.iter().map(|c| (*c).to_owned()).collect(),
        properties: properties.into_iter().map(|(k, v)| (k.to_owned(), v)).collect(),
    }
}

fn call(user: bool, args: Vec<Zval>) -> Call {
    Call {
        function: 99,
        func: Some(Function {
            name: Some("run".to_owned()),
            class: Some("App\\Job".to_owned()),
            user,
            filename: Some("/srv/Job.php".to_owned()),
            line_start: 12,
            arg_names: vec![Some("token".to_owned()), None],
        }),
        this: Some(object(&["App\\Job"], vec![])),
        args,
    }
}

fn headers(pairs: &[(&str, &str)]) -> Vec<(String, String)> {
    pairs.iter().map(|(k, v)| ((*k).to_owned(), (*v).to_owned())).collect()
}

#[test]
fn a_function_is_described_from_its_record() {
    let c = call(true, vec![]);
    assert_eq!(function_name(&c).as_deref(), Some("App\\Job::run"));
    assert_eq!(function_ptr(&c), 99);
    assert_eq!(defining_file(&c).as_deref(), Some("/srv/Job.php"));
    assert!(!is_internal_function(&c));
    let facts = function_facts(&c).unwrap();
    assert_eq!((facts.name.as_str(), facts.internal), ("App\\Job::run", false));
    let c = call(false, vec![]);
    assert!(is_internal_function(&c));
    assert_eq!(defining_file(&c), None);
    let nothing = Call { function: 0, func: None, this: None, args: vec![] };
    assert_eq!(function_name(&nothing), None);
    assert!(is_internal_function(&nothing));
    assert!(function_facts(&nothing).is_none());
}

#[test]
fn bytes_become_text_the_lossy_or_the_strict_way() {
    let broken = Zval::Str(vec![b'a', 0xff, b'b']);
    assert_eq!(scalar_to_string(&broken).as_deref(), Some("a\u{fffd}b"));
    assert_eq!(strict_string(&broken), None);
    assert_eq!(strict_string(&text("h\u{e9}")).as_deref(), Some("h\u{e9}"));
    assert_eq!(scalar_to_string(&text("h\u{e9}")).as_deref(), Some("h\u{e9}"));
    assert_eq!(scalar_to_string(&Zval::Long(-7)).as_deref(), Some("-7"));
    assert_eq!(scalar_to_string(&Zval::Double("1.5".to_owned())).as_deref(), Some("1.5"));
    assert_eq!(scalar_to_string(&Zval::Bool(false)).as_deref(), Some("false"));
    assert_eq!(scalar_to_string(&Zval::Null), None);
    assert_eq!(scalar_to_string(&text(&"x".repeat(600))).unwrap().len(), 512);
    let wide = format!("{}\u{e9}", "x".repeat(511));
    assert_eq!(scalar_to_string(&text(&wide)).unwrap().len(), 511);
    assert_eq!(string_retval(&Zval::Bool(true)), None);
    assert_eq!(string_retval(&text("body")).as_deref(), Some("body"));
    assert_eq!(retval_string_bytes(&broken), Some(vec![b'a', 0xff, b'b']));
}

#[test]
fn arguments_answer_only_for_their_own_type() {
    let list = Zval::Array(vec![(Key::Int(0), text("A: 1")), (Key::Int(1), text("B: 2"))]);
    let options = Zval::Array(vec![(
        Key::Int(10023),
        Zval::Array(vec![(Key::Int(0), text("C: 3"))]),
    )]);
    let keyed = Zval::Array(vec![entry("type", text("abcdef"))]);
    let subject = Zval::Object(Box::new(object(&["Child", "Parent"], vec![])));
    let c = call(true, vec![Zval::Long(4), text("s"), list, options, keyed, subject]);
    assert_eq!(arg_long(&c, 0), Some(4));
    assert_eq!(arg_long(&c, 1), None);
    assert_eq!(arg_scalar_string(&c, 1, 10).as_deref(), Some("s"));
    assert_eq!(arg_string_bytes(&c, 1), Some(b"s".to_vec()));
    assert_eq!(arg_string_array(&c, 2), Some(vec!["A: 1".to_owned(), "B: 2".to_owned()]));
    assert_eq!(arg_string_array(&c, 0), None);
    assert_eq!(arg_array_key_string_array(&c, 3, 10023), Some(vec!["C: 3".to_owned()]));
    assert_eq!(arg_array_key_string_array(&c, 3, 1), None);
    assert_eq!(arg_array_str_key_string(&c, 4, "type", 3).as_deref(), Some("abc"));
    assert_eq!(arg_object_handle(&c, 5), Some(11));
    assert_eq!(arg_object(&c, 0).map(|o| o.handle), None);
    assert!(arg_is_instance_of(&c, 5, "Parent") && !arg_is_instance_of(&c, 5, "Other"));
    assert_eq!(this_object_handle(&c), Some(11));
    assert_eq!(arg_long(&c, 60), None);
}

#[test]
fn properties_are_read_whatever_their_visibility() {
    let inner = Zval::Object(Box::new(object(&["Inner"], vec![])));
    let o = object(
        &["C"],
        vec![
            ("name", Zval::Reference(Box::new(text("n")))),
            ("flag", Zval::Bool(true)),
            ("count", Zval::Long(3)),
            ("inner", inner),
            ("table", Zval::Array(vec![entry("k", text("v"))])),
        ],
    );
    assert_eq!(object_property_string(&o, "name", 9).as_deref(), Some("n"));
    assert_eq!(object_property_bytes(&o, "name"), Some(b"n".to_vec()));
    assert_eq!(object_property_bool(&o, "flag"), Some(true));
    assert_eq!(object_property_bool(&o, "count"), None);
    assert_eq!(object_property_long(&o, "count"), Some(3));
    assert_eq!(object_property_object(&o, "inner").and_then(object_class_name).as_deref(), Some("Inner"));
    assert!(object_property_array_has_str_key(&o, "table", "k"));
    assert!(!object_property_array_has_str_key(&o, "table", "x"));
    assert_eq!(object_property_table_string(&o, "table", "k", 9).as_deref(), Some("v"));
    assert_eq!(object_property_string(&o, "missing", 9), None);
    assert!(object_instance_of(&o, "C"));
}

#[test]
fn returned_values_are_told_apart() {
    assert!(retval_is_true(&Zval::Bool(true)) && !retval_is_true(&Zval::Long(1)));
    let o = Zval::Object(Box::new(object(&["C"], vec![])));
    assert_eq!(retval_object_handle(&o), Some(11));
    assert_eq!(retval_array_len(&Zval::Array(vec![entry("a", Zval::Null)])), Some(1));
    assert_eq!(retval_array_len(&Zval::Null), None);
}

#[test]
fn an_exception_says_what_it_set() {
    let e = object(&["App\\E"], vec![("message", text("m")), ("line", Zval::Long(9))]);
    let identity = exception_identity(&e).unwrap();
    assert_eq!(identity.class, "App\\E");
    assert_eq!(identity.message.as_deref(), Some("m"));
    assert_eq!(identity.line.as_deref(), Some("9"));
    assert_eq!(identity.code, None);
}

#[test]
fn answers_of_php_callbacks_are_bounded() {
    assert_eq!(curl_effective_url(&text("http://x/")).as_deref(), Some("http://x/"));
    assert_eq!(call_object_method_string(&text("topic"), 3).as_deref(), Some("top"));
    assert_eq!(call_object_method_string(&Zval::Null, 3), None);
    let info = Zval::Array(vec![
        entry("http_code", Zval::Long(200)),
        entry("total_time", Zval::Double("0.25".to_owned())),
        entry("ignored", Zval::Bool(true)),
    ]);
    assert_eq!(table_field(&info, "http_code").as_deref(), Some("200"));
    let facts = curl_info(&info);
    assert!(facts.contains(&("http_code".to_owned(), "200".to_owned())));
    assert!(facts.contains(&("total_time".to_owned(), "0.25".to_owned())));
    assert!(facts.iter().all(|(k, _)| k != "ignored"));
}

#[test]
fn captured_arguments_keep_types_and_leave_composites_out() {
    let c = call(true, vec![text("secret"), Zval::Array(vec![]), Zval::Bool(true)]);
    let (captured, dropped) = capture_scalar_arguments(&c, 2);
    assert_eq!((captured.len(), dropped), (2, 1));
    assert_eq!(captured[0].name, "token");
    assert_eq!(captured[0].argument_type, ArgumentType::Str);
    assert_eq!(captured[0].raw.as_deref(), Some("secret"));
    assert_eq!((captured[1].name.as_str(), captured[1].position), ("", 1));
    assert_eq!(captured[1].argument_type, ArgumentType::Array);
    assert_eq!(captured[1].raw, None);
}

#[test]
fn adding_headers_twice_is_adding_them_once() {
    let wanted = headers(&[("a", "1"), ("b", "2"), ("a", "3")]);
    let mut c = call(true, vec![Zval::Array(vec![entry("b", text("own"))])]);
    for _ in 0..2 {
        assert_eq!(inject_array_entries(&mut c, 0, &wanted), Ok(()));
        let Zval::Array(t) = &c.args[0] else { panic!("array") };
        assert_eq!(t.len(), 2);
    }
    assert_eq!(arg_array_str_key_string(&c, 0, "a", 9).as_deref(), Some("1"));
    assert_eq!(arg_array_str_key_string(&c, 0, "b", 9).as_deref(), Some("own"));
    assert_eq!(inject_array_entries(&mut c, 5, &wanted), Err("headers argument not passed"));
}

#[test]
fn a_property_that_is_no_array_is_left_alone() {
    let wanted = headers(&[("a", "1")]);
    let mut o = object(&["C"], vec![("headers", Zval::Null)]);
    assert_eq!(
        inject_property_array_entries(&mut o, "headers", &wanted),
        Err("headers property is not an array")
    );
    let mut o = object(&[], vec![]);
    assert_eq!(
        inject_property_array_entries(&mut o, "headers", &wanted),
        Err("headers property not passed")
    );
    let shared = Zval::Reference(Box::new(Zval::Array(vec![])));
    let mut o = object(&["C"], vec![("headers", shared)]);
    assert_eq!(inject_property_array_entries(&mut o, "headers", &wanted), Ok(()));
    assert!(matches!(&o.properties[0].1, Zval::Reference(_)));
    assert_eq!(object_property_table_string(&o, "headers", "a", 9).as_deref(), Some("1"));
    let mut o = object(&["C"], vec![("headers", Zval::Array(vec![]))]);
    assert_eq!(inject_property_array_entries(&mut o, "headers", &wanted), Ok(()));
    assert_eq!(object_property_table_string(&o, "headers", "a", 9).as_deref(), Some("1"));
}

#[test]
fn an_amqp_message_without_headers_gets_a_table() {
    let mut m = object(&["M"], vec![("properties", Zval::Array(vec![]))]);
    assert_eq!(inject_amqp_application_headers(&mut m, &headers(&[("a", "1"), ("a", "2")])), Ok(()));
    assert_eq!(amqp_application_header(&m, "a", 9).as_deref(), Some("2"));
    let mut m = object(&[], vec![]);
    assert_eq!(
        inject_amqp_application_headers(&mut m, &headers(&[])),
        Err("properties not readable")
    );
    let Err(_) = inject_amqp_application_headers(
        &mut object(&["M"], vec![("properties", Zval::Array(vec![entry("application_headers", Zval::Object(Box::new(object(&[], vec![]))))]))]),
        &headers(&[]),
    ) else {
        panic!("an unreadable table is refused")
    };
}
