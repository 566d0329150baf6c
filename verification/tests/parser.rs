use capset::{parse_dependencies, AllOf, AnyOf, ParseErrorKind};

fn ext(names: &[&str]) -> AllOf {
    AllOf {
        api_version: None,
        extensions: names.iter().map(|n| n.to_string()).collect(),
    }
}

#[test]
fn or_binds_looser_than_and() {
    // `a+b,c` groups as `(a+b),c`, never `a+(b,c)`.
    let tree = parse_dependencies("a+b,c").unwrap();
    assert_eq!(tree, AnyOf(vec![ext(&["a", "b"]), ext(&["c"])]));
}

#[test]
fn and_distributes_over_or() {
    let tree = parse_dependencies("(a,b)+c").unwrap();
    assert_eq!(tree, AnyOf(vec![ext(&["a", "c"]), ext(&["b", "c"])]));
}

#[test]
fn nested_parentheses_distribute_through() {
    // `((a,b)+c)+d`: the inner group gives {a,c} and {b,c}; conjoining `d`
    // appends it to each, so every alternative holds `c`, `d` and one of
    // `a`, `b`.
    let tree = parse_dependencies("((a,b)+c)+d").unwrap();
    assert_eq!(
        tree,
        AnyOf(vec![ext(&["a", "c", "d"]), ext(&["b", "c", "d"])])
    );
    for alt in &tree.0 {
        assert!(alt.extensions.contains(&"c".to_string()));
        assert!(alt.extensions.contains(&"d".to_string()));
    }
}

#[test]
fn version_floor_takes_the_later_of_two() {
    let with_floor = AllOf {
        api_version: Some(2),
        extensions: vec![],
    };
    let without = ext(&["a"]);
    assert_eq!(with_floor.merge(&without).api_version, Some(2));
    assert_eq!(without.merge(&with_floor).api_version, Some(2));

    let v1 = AllOf {
        api_version: Some(1),
        extensions: vec![],
    };
    let v3 = AllOf {
        api_version: Some(3),
        extensions: vec![],
    };
    assert_eq!(v1.merge(&v3).api_version, Some(3));
    assert_eq!(v3.merge(&v1).api_version, Some(3));
    assert_eq!(without.merge(&without).api_version, None);
}

#[test]
fn version_tokens_become_floors() {
    let tree = parse_dependencies("VK_VERSION_1_2").unwrap();
    assert_eq!(
        tree,
        AnyOf(vec![AllOf {
            api_version: Some(2),
            extensions: vec![],
        }])
    );

    let tree = parse_dependencies("VK_VERSION_1_1,VK_KHR_device_group_creation").unwrap();
    assert_eq!(
        tree,
        AnyOf(vec![
            AllOf {
                api_version: Some(1),
                extensions: vec![],
            },
            ext(&["VK_KHR_device_group_creation"]),
        ])
    );
}

#[test]
fn version_floor_merges_inside_conjunction() {
    let tree = parse_dependencies("(VK_VERSION_1_1,a)+(VK_VERSION_1_3,b)").unwrap();
    assert_eq!(
        tree,
        AnyOf(vec![
            AllOf {
                api_version: Some(3),
                extensions: vec![],
            },
            AllOf {
                api_version: Some(1),
                extensions: vec!["b".to_string()],
            },
            AllOf {
                api_version: Some(3),
                extensions: vec!["a".to_string()],
            },
            ext(&["a", "b"]),
        ])
    );
}

#[test]
fn alternative_count_is_the_product() {
    let tree = parse_dependencies("(a,b)+(c,d,e)").unwrap();
    assert_eq!(tree.0.len(), 6);
}

#[test]
fn empty_input_is_rejected() {
    let err = parse_dependencies("").unwrap_err();
    assert_eq!(err.kind, ParseErrorKind::EmptyOperand);
    assert_eq!(err.offending, "");
}

#[test]
fn empty_operand_is_rejected() {
    let err = parse_dependencies("a+").unwrap_err();
    assert_eq!(err.kind, ParseErrorKind::EmptyOperand);
    assert_eq!(err.offending, "a+");
    assert!(parse_dependencies("a++b").is_err());
    assert!(parse_dependencies(",a").is_err());
}

#[test]
fn unmatched_parenthesis_is_rejected() {
    let err = parse_dependencies("(a,b").unwrap_err();
    assert_eq!(err.kind, ParseErrorKind::UnmatchedParenthesis);
    assert_eq!(err.offending, "(a,b");
    assert!(parse_dependencies("a)b").is_err());
    assert!(parse_dependencies("(a))").is_err());
}

#[test]
fn single_name_parses_to_one_alternative() {
    let tree = parse_dependencies("VK_KHR_surface").unwrap();
    assert_eq!(tree, AnyOf(vec![ext(&["VK_KHR_surface"])]));
}

#[test]
fn parse_runs_are_identical() {
    let a = parse_dependencies("(a,b)+c,VK_VERSION_1_2+d").unwrap();
    let b = parse_dependencies("(a,b)+c,VK_VERSION_1_2+d").unwrap();
    assert_eq!(a, b);
}
