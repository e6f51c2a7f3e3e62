use opt_args::{
    build_dispatcher, GenericOptArg, Invocation, OptArgsAttributes, OptArgsItemStruct, OptArgsItemType,
};

fn required(name: &str) -> GenericOptArg {
    GenericOptArg { ident: name.to_string(), value: None, default: false }
}

fn with_default(name: &str, value: &str) -> GenericOptArg {
    GenericOptArg { ident: name.to_string(), value: Some(value.to_string()), default: false }
}

fn implicit(name: &str) -> GenericOptArg {
    GenericOptArg { ident: name.to_string(), value: None, default: true }
}

fn invocation(positional: &[&str], named: &[(&str, &str)]) -> Invocation {
    Invocation {
        positional: positional.iter().map(|s| s.to_string()).collect(),
        named: named.iter().map(|(n, v)| (n.to_string(), v.to_string())).collect(),
    }
}

#[test]
fn opt_struct() {
    // struct Opt<'a, 'b, T: 'b> { a: i32, b: &'a str = "b", c: &'b str = "c", d: T? }
    let item = OptArgsItemType::ItemStruct(OptArgsItemStruct {
        ident: "Opt".to_string(),
        fields: vec![
            required("a"),
            with_default("b", "\"b\""),
            with_default("c", "\"c\""),
            implicit("d"),
        ],
    });
    let attrs = OptArgsAttributes { shuffle: true, non_export: true, rename: None };
    let d = build_dispatcher(&item, &attrs).unwrap();

    // Opt! {4}: d takes its zero value, `vec![]` for a Vec.
    let result = d.expand_invocation(&invocation(&["4"], &[])).unwrap();
    assert_eq!(
        result,
        "Opt { a: 4, b: \"b\", c: \"c\", d: ::std::default::Default::default() }"
    );

    let result = d
        .expand_invocation(&invocation(
            &["4"],
            &[("c", "\"not default\""), ("d", "vec![\"type inference Vec<&str>\"]")],
        ))
        .unwrap();
    assert_eq!(
        result,
        "Opt { a: 4, b: \"b\", c: \"not default\", d: vec![\"type inference Vec<&str>\"] }"
    );

    let result = d.expand_invocation(&invocation(&["4"], &[("b", "\"c\""), ("d", "1")])).unwrap();
    assert_eq!(result, "Opt { a: 4, b: \"c\", c: \"c\", d: 1 }");
}
