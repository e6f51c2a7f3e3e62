use opt_args::{
    build_dispatcher, Dispatcher, GenericOptArg, Invocation, OptArgsAttributes, OptArgsItemFn, OptArgsItemType,
};

const ZERO: &str = "::std::default::Default::default()";

fn required(name: &str) -> GenericOptArg {
    GenericOptArg { ident: name.to_string(), value: None, default: false }
}

fn with_default(name: &str, value: &str) -> GenericOptArg {
    GenericOptArg { ident: name.to_string(), value: Some(value.to_string()), default: false }
}

fn implicit(name: &str) -> GenericOptArg {
    GenericOptArg { ident: name.to_string(), value: None, default: true }
}

fn dispatcher(name: &str, inputs: Vec<GenericOptArg>, shuffle: bool) -> Dispatcher {
    let item = OptArgsItemType::ItemFn(OptArgsItemFn { ident: name.to_string(), inputs });
    let attrs = OptArgsAttributes { shuffle, non_export: true, rename: None };
    build_dispatcher(&item, &attrs).unwrap()
}

fn call(d: &Dispatcher, positional: &[&str], named: &[(&str, &str)]) -> String {
    let inv = Invocation {
        positional: positional.iter().map(|s| s.to_string()).collect(),
        named: named.iter().map(|(n, v)| (n.to_string(), v.to_string())).collect(),
    };
    d.expand_invocation(&inv).unwrap()
}

#[test]
fn one_opt_arg() {
    // fn one_opt_arg(a: i32, b: u8?)
    let d = dispatcher("one_opt_arg", vec![required("a"), implicit("b")], false);
    assert_eq!(call(&d, &["1"], &[]), format!("one_opt_arg(1, {})", ZERO));
    assert_eq!(call(&d, &["1"], &[("b", "42")]), "one_opt_arg(1, 42)");
}

#[test]
fn all_opt_arg() {
    // #[opt_args(shuffle)] fn all_opt_arg_internal(a: i32?, b: u8?)
    let d = dispatcher("all_opt_arg_internal", vec![implicit("a"), implicit("b")], true);
    assert_eq!(call(&d, &[], &[]), format!("all_opt_arg_internal({}, {})", ZERO, ZERO));
    assert_eq!(call(&d, &[], &[("a", "1")]), format!("all_opt_arg_internal(1, {})", ZERO));
    assert_eq!(call(&d, &[], &[("b", "1")]), format!("all_opt_arg_internal({}, 1)", ZERO));
    // call with arguments in different order
    assert_eq!(call(&d, &[], &[("b", "1"), ("a", "1")]), "all_opt_arg_internal(1, 1)");
}

#[test]
fn recursive() {
    // fn factorial(n: u64 = 5), which calls factorial!(n = n - 1) itself
    let d = dispatcher("factorial", vec![with_default("n", "5")], false);
    assert_eq!(call(&d, &[], &[]), "factorial(5)");
    assert_eq!(call(&d, &[], &[("n", "n - 1")]), "factorial(n - 1)");
}

#[test]
fn complex_types() {
    // fn complex_types(a: i32?, b: &str = "default", c: (u128, f32)?,
    //                  d: Option<[String; 4]>?, e: &str?, f: Vec<T>?)
    let d = dispatcher(
        "complex_types",
        vec![
            implicit("a"),
            with_default("b", "\"default\""),
            implicit("c"),
            implicit("d"),
            implicit("e"),
            implicit("f"),
        ],
        false,
    );
    assert_eq!(
        call(&d, &[], &[]),
        format!("complex_types({z}, \"default\", {z}, {z}, {z}, {z})", z = ZERO)
    );
    assert_eq!(
        call(&d, &[], &[("e", "\"e\""), ("f", "vec![9]")]),
        format!("complex_types({z}, \"default\", {z}, {z}, \"e\", vec![9])", z = ZERO)
    );
}

#[test]
fn generics_and_type_inference() {
    // #[opt_args(shuffle)] fn type_inference<A, B>(a: A?, b: B?)
    let d = dispatcher("type_inference", vec![implicit("a"), implicit("b")], true);
    assert_eq!(call(&d, &[], &[]), format!("type_inference({}, {})", ZERO, ZERO));
    assert_eq!(call(&d, &[], &[]), call(&d, &[], &[]));
}

#[test]
fn ordered() {
    // fn ordered_internal(a: i32, b: i32?, c: i32?)
    let d = dispatcher("ordered_internal", vec![required("a"), implicit("b"), implicit("c")], false);
    assert_eq!(call(&d, &["1"], &[]), format!("ordered_internal(1, {}, {})", ZERO, ZERO));
    assert_eq!(call(&d, &["1"], &[("b", "10")]), format!("ordered_internal(1, 10, {})", ZERO));
    assert_eq!(call(&d, &["1"], &[("c", "1")]), format!("ordered_internal(1, {}, 1)", ZERO));
    assert_eq!(call(&d, &["1"], &[("b", "1"), ("c", "1")]), "ordered_internal(1, 1, 1)");
}
