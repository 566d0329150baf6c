use capset::{resolve, AnyOf, CapabilitySet, Extension, Extracted, Registry};

fn registry(device_names: &[&str], instance_names: &[&str]) -> Registry {
    let mut acc = Extracted::new();
    for name in instance_names {
        acc.push_extension(Extension {
            name: name.to_string(),
            any_of: AnyOf(vec![]),
            is_instance: true,
        });
    }
    for name in device_names {
        acc.push_extension(Extension {
            name: name.to_string(),
            any_of: AnyOf(vec![]),
            is_instance: false,
        });
    }
    let table = acc.finish().unwrap();
    resolve(&table).unwrap()
}

fn device_set(reg: &Registry, names: &[&str]) -> CapabilitySet {
    let names: Vec<String> = names.iter().map(|n| n.to_string()).collect();
    CapabilitySet::from_names(&reg.device_caps, &names)
}

#[test]
fn from_names_sets_matching_slots() {
    let reg = registry(&["alpha", "beta", "gamma"], &[]);
    let s = device_set(&reg, &["beta"]);
    // finish sorts by name, so the slots are alpha, beta, gamma.
    assert_eq!(s.flags, vec![false, true, false]);
}

#[test]
fn from_names_ignores_unknown_names() {
    let reg = registry(&["alpha", "beta"], &[]);
    let s = device_set(&reg, &["totally_unknown"]);
    assert!(s.is_empty());
    assert_eq!(s.flags, vec![false, false]);
}

#[test]
fn union_is_commutative() {
    let reg = registry(&["a", "b", "c", "d"], &[]);
    let x = device_set(&reg, &["a", "c"]);
    let y = device_set(&reg, &["b", "c"]);
    assert!(x.union(&y).equals(&y.union(&x)));
    assert_eq!(x.union(&y).flags, vec![true, true, true, false]);
}

#[test]
fn intersection_absorbs_union() {
    let reg = registry(&["a", "b", "c"], &[]);
    let x = device_set(&reg, &["a"]);
    let y = device_set(&reg, &["b"]);
    assert!(x.intersection(&x.union(&y)).equals(&x));
}

#[test]
fn difference_with_itself_is_empty() {
    let reg = registry(&["a", "b", "c"], &[]);
    let x = device_set(&reg, &["a", "c"]);
    assert!(x.difference(&x).is_empty());
}

#[test]
fn union_contains_both_sides() {
    let reg = registry(&["a", "b", "c"], &[]);
    let x = device_set(&reg, &["a"]);
    let y = device_set(&reg, &["c"]);
    let u = x.union(&y);
    assert!(u.contains(&x));
    assert!(u.contains(&y));
    assert!(!x.contains(&u));
}

#[test]
fn union_restores_difference() {
    let reg = registry(&["a", "b", "c"], &[]);
    let a = device_set(&reg, &["a"]);
    let b = device_set(&reg, &["a", "b"]);
    assert!(a.union(&b.difference(&a)).contains(&b));
}

#[test]
fn intersection_and_difference_by_slot() {
    let reg = registry(&["a", "b", "c"], &[]);
    let x = device_set(&reg, &["a", "b"]);
    let y = device_set(&reg, &["b", "c"]);
    assert_eq!(x.intersection(&y).flags, vec![false, true, false]);
    assert_eq!(x.difference(&y).flags, vec![true, false, false]);
}

#[test]
fn contains_is_subset_not_equality() {
    let reg = registry(&["a", "b"], &[]);
    let big = device_set(&reg, &["a", "b"]);
    let small = device_set(&reg, &["a"]);
    assert!(big.contains(&small));
    assert!(!small.contains(&big));
    assert!(!big.equals(&small));
}

#[test]
fn empty_set_is_empty_and_contained_everywhere() {
    let reg = registry(&["a", "b"], &[]);
    let none = device_set(&reg, &[]);
    let some = device_set(&reg, &["a"]);
    assert!(none.is_empty());
    assert!(!some.is_empty());
    assert!(some.contains(&none));
}

#[test]
fn scopes_are_kept_apart() {
    let reg = registry(&["devcap"], &["instcap"]);
    assert_eq!(reg.device_caps.len(), 1);
    assert_eq!(reg.instance_caps.len(), 1);
    let names: Vec<String> = vec!["instcap".to_string()];
    let d = CapabilitySet::from_names(&reg.device_caps, &names);
    let i = CapabilitySet::from_names(&reg.instance_caps, &names);
    assert!(d.is_empty());
    assert!(!i.is_empty());
}
