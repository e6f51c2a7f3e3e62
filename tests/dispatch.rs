use opt_args::{
    build_dispatcher, compute_combinations, internal, split_args, synthesize_branch, Arm, Dispatcher,
    GenericOptArg, Invocation, OptArgsAttributes, OptArgsItemFn, OptArgsItemStruct, OptArgsItemType,
    OptionalArg, Slot, IMPLICIT_DEFAULT,
};

fn required(name: &str) -> GenericOptArg {
    GenericOptArg { ident: name.to_string(), value: None, default: false }
}

fn with_default(name: &str, value: &str) -> GenericOptArg {
    GenericOptArg { ident: name.to_string(), value: Some(value.to_string()), default: false }
}

fn implicit(name: &str) -> GenericOptArg {
    GenericOptArg { ident: name.to_string(), value: None, default: true }
}

fn function(name: &str, inputs: Vec<GenericOptArg>) -> OptArgsItemType {
    OptArgsItemType::ItemFn(OptArgsItemFn { ident: name.to_string(), inputs })
}

fn attrs(shuffle: bool) -> OptArgsAttributes {
    OptArgsAttributes { shuffle, non_export: false, rename: None }
}

fn invocation(positional: &[&str], named: &[(&str, &str)]) -> Invocation {
    Invocation {
        positional: positional.iter().map(|s| s.to_string()).collect(),
        named: named.iter().map(|(n, v)| (n.to_string(), v.to_string())).collect(),
    }
}

fn optional_args(n: usize) -> Vec<OptionalArg> {
    (0..n).map(|i| OptionalArg { ident: format!("o{}", i), default: "0".to_string() }).collect()
}

fn scenario_one() -> Dispatcher {
    let item = function("target", vec![required("a"), required("b"), with_default("c", "5")]);
    build_dispatcher(&item, &attrs(false)).unwrap()
}

#[test]
fn scenario_required_and_one_default() {
    let d = scenario_one();
    assert_eq!(d.expand_invocation(&invocation(&["1", "2"], &[])).unwrap(), "target(1, 2, 5)");
    assert_eq!(d.expand_invocation(&invocation(&["1", "2"], &[("c", "9")])).unwrap(), "target(1, 2, 9)");
    assert_eq!(d.resolve(&invocation(&["1", "2"], &[("c", "9")])).unwrap(), vec!["1", "2", "9"]);
}

#[test]
fn scenario_shuffled_implicit_defaults() {
    let item = function("target", vec![implicit("a"), implicit("b")]);
    let d = build_dispatcher(&item, &attrs(true)).unwrap();
    assert_eq!(
        d.expand_invocation(&invocation(&[], &[])).unwrap(),
        format!("target({}, {})", IMPLICIT_DEFAULT, IMPLICIT_DEFAULT)
    );
    assert_eq!(d.expand_invocation(&invocation(&[], &[("b", "1"), ("a", "2")])).unwrap(), "target(2, 1)");
}

#[test]
fn scenario_wrong_order_falls_back() {
    let item = function("target", vec![required("a"), implicit("b"), implicit("c")]);
    let d = build_dispatcher(&item, &attrs(false)).unwrap();
    let err = d.expand_invocation(&invocation(&["1"], &[("c", "3"), ("b", "2")])).unwrap_err();
    assert_eq!(err.arguments, "1, c = 3, b = 2");
    assert_eq!(
        err.message(),
        "Unrecognized order or name for arguments: `1, c = 3, b = 2`. \
         If you want to pass named parameters in any order, use the attribute #[opt_args(shuffle)]"
    );
    // The same order is accepted once shuffled.
    let d = build_dispatcher(&item, &attrs(true)).unwrap();
    assert_eq!(d.resolve(&invocation(&["1"], &[("c", "3"), ("b", "2")])).unwrap(), vec!["1", "2", "3"]);
}

#[test]
fn scenario_optional_before_required() {
    let item = function("target", vec![required("x"), implicit("a"), required("b"), required("c")]);
    let err = internal(&item, &attrs(false)).unwrap_err();
    assert_eq!(err.index, 2);
    assert_eq!(err.ident, "b");
    assert_eq!(err.message(), "Non-default arguments should come before default arguments");
    assert!(build_dispatcher(&item, &attrs(true)).is_err());
}

#[test]
fn unmatched_shapes() {
    let d = scenario_one();
    // too few positional arguments
    assert!(d.resolve(&invocation(&["1"], &[])).is_err());
    // too many positional arguments
    assert!(d.resolve(&invocation(&["1", "2", "3"], &[])).is_err());
    // unknown name
    assert_eq!(d.resolve(&invocation(&["1", "2"], &[("z", "3")])).unwrap_err().arguments, "1, 2, z = 3");
    // duplicate name
    assert!(d.resolve(&invocation(&["1", "2"], &[("c", "3"), ("c", "4")])).is_err());
}

#[test]
fn subset_counts() {
    assert_eq!(compute_combinations(&optional_args(2), false).len(), 4);
    assert_eq!(compute_combinations(&optional_args(2), true).len(), 5);
    assert_eq!(compute_combinations(&optional_args(3), false).len(), 8);
    assert_eq!(compute_combinations(&optional_args(3), true).len(), 16);
    assert_eq!(compute_combinations(&optional_args(4), true).len(), 65);
    assert_eq!(compute_combinations(&optional_args(0), false), vec![Vec::<usize>::new()]);
    assert_eq!(compute_combinations(&optional_args(0), true), vec![Vec::<usize>::new()]);
}

#[test]
fn subset_order() {
    let sequential = compute_combinations(&optional_args(3), false);
    let expected: Vec<Vec<usize>> =
        vec![vec![], vec![0], vec![1], vec![2], vec![0, 1], vec![0, 2], vec![1, 2], vec![0, 1, 2]];
    assert_eq!(sequential, expected);
    let shuffled = compute_combinations(&optional_args(3), true);
    let expected: Vec<Vec<usize>> = vec![
        vec![],
        vec![0],
        vec![1],
        vec![2],
        vec![0, 1],
        vec![0, 2],
        vec![1, 0],
        vec![1, 2],
        vec![2, 0],
        vec![2, 1],
        vec![0, 1, 2],
        vec![0, 2, 1],
        vec![1, 0, 2],
        vec![1, 2, 0],
        vec![2, 0, 1],
        vec![2, 1, 0],
    ];
    assert_eq!(shuffled, expected);
}

#[test]
fn no_optional_parameters() {
    for shuffle in [false, true] {
        let item = function("target", vec![required("a"), required("b")]);
        let d = build_dispatcher(&item, &attrs(shuffle)).unwrap();
        assert_eq!(d.arms.len(), 2);
        match &d.arms[0] {
            Arm::Branch(b) => assert!(b.keywords.is_empty()),
            Arm::Fallback => panic!("the first arm is a branch"),
        }
        assert!(matches!(d.arms[1], Arm::Fallback));
        assert_eq!(d.expand_invocation(&invocation(&["1", "2"], &[])).unwrap(), "target(1, 2)");
    }
}

#[test]
fn expansion_arity() {
    let item = function("t", vec![required("a"), implicit("b"), with_default("c", "7"), implicit("d")]);
    for shuffle in [false, true] {
        let d = build_dispatcher(&item, &attrs(shuffle)).unwrap();
        for arm in &d.arms {
            if let Arm::Branch(b) = arm {
                assert_eq!(b.expansion.len(), 4);
            }
        }
    }
    let sig = split_args(&vec![required("a"), implicit("b"), with_default("c", "7")]).unwrap();
    let b = synthesize_branch(&sig, &vec![1]);
    assert_eq!(b.expansion.len(), 3);
    assert!(matches!(b.expansion[0], Slot::Positional(0)));
    match &b.expansion[1] {
        Slot::DefaultValue(e) => assert_eq!(e, IMPLICIT_DEFAULT),
        _ => panic!("b is not named"),
    }
    assert!(matches!(b.expansion[2], Slot::Named(0)));
}

#[test]
fn repeated_runs_are_identical() {
    let item = function("target", vec![required("a"), implicit("b"), implicit("c"), with_default("d", "1")]);
    for shuffle in [false, true] {
        let first = internal(&item, &attrs(shuffle)).unwrap();
        let second = internal(&item, &attrs(shuffle)).unwrap();
        assert_eq!(first, second);
    }
}

#[test]
fn round_trip_every_order() {
    let item = function("target", vec![required("x"), implicit("a"), implicit("b"), with_default("c", "4")]);
    let d = build_dispatcher(&item, &attrs(true)).unwrap();
    let orders = [["a", "b", "c"], ["a", "c", "b"], ["b", "a", "c"], ["b", "c", "a"], ["c", "a", "b"], ["c", "b", "a"]];
    for order in orders {
        let named: Vec<(&str, &str)> = order
            .iter()
            .map(|n| match *n {
                "a" => ("a", "10"),
                "b" => ("b", "20"),
                _ => ("c", "30"),
            })
            .collect();
        assert_eq!(d.expand_invocation(&invocation(&["0"], &named)).unwrap(), "target(0, 10, 20, 30)");
    }
    let d = build_dispatcher(&item, &attrs(false)).unwrap();
    assert_eq!(
        d.expand_invocation(&invocation(&["0"], &[("a", "10"), ("b", "20"), ("c", "30")])).unwrap(),
        "target(0, 10, 20, 30)"
    );
    assert!(d.resolve(&invocation(&["0"], &[("b", "20"), ("a", "10"), ("c", "30")])).is_err());
}

#[test]
fn rendered_macro() {
    let item = function("target", vec![required("a"), with_default("c", "5")]);
    let text = internal(&item, &attrs(false)).unwrap();
    let fallback = "($($tt:tt)*) => { compile_error!(concat!(\"Unrecognized order or name for arguments: `\", \
                    stringify!($($tt)*), \"`. If you want to pass named parameters in any order, \
                    use the attribute #[opt_args(shuffle)]\")) }";
    assert_eq!(
        text,
        format!(
            "#[allow(non_snake_case, unused)] #[macro_export] macro_rules! target {{ \
             ($a:expr) => {{ target($a, 5) }}; \
             ($a:expr, c = $c:expr) => {{ target($a, $c) }}; {} }}",
            fallback
        )
    );
}

#[test]
fn rendered_struct_macro_renamed() {
    let item = OptArgsItemType::ItemStruct(OptArgsItemStruct {
        ident: "Point".to_string(),
        fields: vec![implicit("x"), implicit("y")],
    });
    let options = OptArgsAttributes { shuffle: true, non_export: true, rename: Some("point".to_string()) };
    let text = internal(&item, &options).unwrap();
    assert!(text.starts_with("#[allow(non_snake_case, unused)] macro_rules! point { () => { Point { x: "));
    assert!(text.contains("(y = $y:expr, x = $x:expr) => { Point { x: $x, y: $y } }"));
    assert!(text.contains(&format!("(y = $y:expr) => {{ Point {{ x: {}, y: $y }} }}", IMPLICIT_DEFAULT)));
    let d = build_dispatcher(&item, &options).unwrap();
    assert_eq!(d.macro_ident, "point");
    assert_eq!(d.target, "Point");
    assert!(!d.export);
}

#[test]
fn validator_split() {
    let sig = split_args(&vec![required("a"), required("b"), with_default("c", "1 + 1"), implicit("d")]).unwrap();
    assert_eq!(sig.required, vec!["a", "b"]);
    assert_eq!(sig.optional.len(), 2);
    assert_eq!(sig.optional[0].ident, "c");
    assert_eq!(sig.optional[0].default, "1 + 1");
    assert_eq!(sig.optional[1].ident, "d");
    assert_eq!(sig.optional[1].default, IMPLICIT_DEFAULT);
    assert!(split_args(&vec![]).unwrap().required.is_empty());
    let err = split_args(&vec![implicit("a"), required("b")]).unwrap_err();
    assert_eq!((err.index, err.ident.as_str()), (1, "b"));
    assert!(implicit("a").is_optional());
    assert!(with_default("a", "1").is_optional());
    assert!(!required("a").is_optional());
}

#[test]
fn enumeration_is_lexicographic_by_size() {
    for n in 0..=5usize {
        for shuffle in [false, true] {
            let all = compute_combinations(&optional_args(n), shuffle);
            for w in all.windows(2) {
                assert!(w[0].len() < w[1].len() || (w[0].len() == w[1].len() && w[0] < w[1]));
            }
            for s in &all {
                assert!(s.iter().all(|&o| o < n));
                let mut sorted = s.clone();
                sorted.sort();
                sorted.dedup();
                assert_eq!(sorted.len(), s.len());
                if !shuffle {
                    assert_eq!(&sorted, s);
                }
            }
            let expected: usize = if shuffle {
                (0..=n).map(|i| ((n - i + 1)..=n).product::<usize>()).sum()
            } else {
                1 << n
            };
            assert_eq!(all.len(), expected);
        }
    }
}
