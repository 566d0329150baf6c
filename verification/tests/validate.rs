use capset::{
    parse_dependencies, resolve, AnyOf, CapabilitySet, Extension, Extracted, Registry, Version,
};

fn build(records: &[(&str, bool, Option<&str>)]) -> Registry {
    let mut acc = Extracted::new();
    for (name, is_instance, expr) in records {
        let any_of = match expr {
            Some(e) => parse_dependencies(e).unwrap(),
            None => AnyOf(vec![]),
        };
        acc.push_extension(Extension {
            name: name.to_string(),
            any_of,
            is_instance: *is_instance,
        });
    }
    resolve(&acc.finish().unwrap()).unwrap()
}

fn set(caps: &Vec<capset::RCap>, names: &[&str]) -> CapabilitySet {
    let names: Vec<String> = names.iter().map(|n| n.to_string()).collect();
    CapabilitySet::from_names(caps, &names)
}

#[test]
fn unmet_requirement_names_the_offender() {
    let reg = build(&[("cap_a", false, None), ("cap_b", false, Some("cap_a"))]);
    let dev = set(&reg.device_caps, &["cap_b"]);
    let inst = set(&reg.instance_caps, &[]);
    let err = dev
        .validate(&reg, false, &inst, Version::new(1, 0, 0))
        .unwrap_err();
    assert_eq!(err.context, "desc.enabled_extensions.cap_b");
    assert_eq!(err.problem, "Extension is enabled, but requirements aren't met.");
    assert_eq!(
        err.vuids,
        vec!["VUID-vkCreateDevice-ppEnabledExtensionNames-01387".to_string()]
    );
    assert_eq!(err.requires_one_of.len(), 1);
    assert_eq!(err.requires_one_of[0].api_version, None);
    assert_eq!(
        err.requires_one_of[0].device_extensions,
        vec!["cap_a".to_string()]
    );
    assert!(err.requires_one_of[0].instance_extensions.is_empty());
}

#[test]
fn met_requirement_validates() {
    let reg = build(&[("cap_a", false, None), ("cap_b", false, Some("cap_a"))]);
    let dev = set(&reg.device_caps, &["cap_a", "cap_b"]);
    let inst = set(&reg.instance_caps, &[]);
    assert!(dev.validate(&reg, false, &inst, Version::new(1, 0, 0)).is_ok());
}

#[test]
fn disabled_capability_is_never_checked() {
    let reg = build(&[("cap_a", false, None), ("cap_b", false, Some("cap_a"))]);
    let inst = set(&reg.instance_caps, &[]);
    for with_a in [&[][..], &["cap_a"][..]] {
        let dev = set(&reg.device_caps, with_a);
        assert!(dev.validate(&reg, false, &inst, Version::new(1, 0, 0)).is_ok());
    }
}

#[test]
fn cross_scope_requirement_reads_the_instance_set() {
    // A per-device capability requiring a global-scope capability must be
    // checked against the caller-supplied instance set, not the device set.
    let reg = build(&[
        ("VK_EXT_global", true, None),
        ("VK_EXT_needs_global", false, Some("VK_EXT_global")),
    ]);
    let dev = set(&reg.device_caps, &["VK_EXT_needs_global"]);

    let inst_off = set(&reg.instance_caps, &[]);
    let err = dev
        .validate(&reg, false, &inst_off, Version::new(1, 0, 0))
        .unwrap_err();
    assert_eq!(err.context, "desc.enabled_extensions.ext_needs_global");
    assert_eq!(
        err.requires_one_of[0].instance_extensions,
        vec!["VK_EXT_global".to_string()]
    );
    assert!(err.requires_one_of[0].device_extensions.is_empty());

    let inst_on = set(&reg.instance_caps, &["VK_EXT_global"]);
    assert!(dev.validate(&reg, false, &inst_on, Version::new(1, 0, 0)).is_ok());
}

#[test]
fn version_floor_gates_validation() {
    let reg = build(&[("cap_new", false, Some("VK_VERSION_1_2"))]);
    let dev = set(&reg.device_caps, &["cap_new"]);
    let inst = set(&reg.instance_caps, &[]);
    let err = dev
        .validate(&reg, false, &inst, Version::new(1, 1, 0))
        .unwrap_err();
    assert_eq!(err.requires_one_of[0].api_version, Some(Version::new(1, 2, 0)));
    assert!(dev.validate(&reg, false, &inst, Version::new(1, 2, 0)).is_ok());
    assert!(dev.validate(&reg, false, &inst, Version::new(1, 3, 0)).is_ok());
    assert!(dev.validate(&reg, false, &inst, Version::new(2, 0, 0)).is_ok());
}

#[test]
fn any_satisfied_alternative_validates() {
    let reg = build(&[
        ("cap_a", false, None),
        ("cap_b", false, None),
        ("cap_c", false, Some("VK_VERSION_1_3,cap_a+cap_b")),
    ]);
    let inst = set(&reg.instance_caps, &[]);

    let only_c = set(&reg.device_caps, &["cap_c"]);
    assert!(only_c.validate(&reg, false, &inst, Version::new(1, 3, 0)).is_ok());
    assert!(only_c
        .validate(&reg, false, &inst, Version::new(1, 2, 0))
        .is_err());

    let with_both = set(&reg.device_caps, &["cap_a", "cap_b", "cap_c"]);
    assert!(with_both
        .validate(&reg, false, &inst, Version::new(1, 0, 0))
        .is_ok());

    let with_one = set(&reg.device_caps, &["cap_a", "cap_c"]);
    assert!(with_one
        .validate(&reg, false, &inst, Version::new(1, 0, 0))
        .is_err());
}

#[test]
fn first_offender_in_table_order_is_reported() {
    let reg = build(&[
        ("cap_a", false, Some("missing_dep_a")),
        ("cap_b", false, Some("missing_dep_b")),
        ("missing_dep_a", false, None),
        ("missing_dep_b", false, None),
    ]);
    let dev = set(&reg.device_caps, &["cap_a", "cap_b"]);
    let inst = set(&reg.instance_caps, &[]);
    let err = dev
        .validate(&reg, false, &inst, Version::new(1, 0, 0))
        .unwrap_err();
    assert_eq!(err.context, "desc.enabled_extensions.cap_a");
}

#[test]
fn instance_scope_validates_against_the_version() {
    let reg = build(&[("VK_KHR_new_inst", true, Some("VK_VERSION_1_1"))]);
    let inst = set(&reg.instance_caps, &["VK_KHR_new_inst"]);
    let dev = set(&reg.device_caps, &[]);
    let err = inst
        .validate(&reg, true, &dev, Version::new(1, 0, 0))
        .unwrap_err();
    assert_eq!(
        err.vuids,
        vec!["VUID-vkCreateInstance-ppEnabledExtensionNames-01388".to_string()]
    );
    assert!(inst.validate(&reg, true, &dev, Version::new(1, 1, 0)).is_ok());
}

#[test]
fn unknown_reference_fails_resolution() {
    let mut acc = Extracted::new();
    acc.push_extension(Extension {
        name: "cap_a".to_string(),
        any_of: parse_dependencies("nowhere_to_be_found").unwrap(),
        is_instance: false,
    });
    let table = acc.finish().unwrap();
    assert!(matches!(
        resolve(&table),
        Err(capset::BuildError::UnknownCapability { .. })
    ));
}

#[test]
fn duplicate_names_fail_freezing() {
    let mut acc = Extracted::new();
    for _ in 0..2 {
        acc.push_extension(Extension {
            name: "cap_a".to_string(),
            any_of: AnyOf(vec![]),
            is_instance: false,
        });
    }
    assert!(matches!(
        acc.finish(),
        Err(capset::BuildError::DuplicateName { .. })
    ));
}

#[test]
fn forward_references_resolve() {
    // The requirement names a capability that only appears later in the
    // registry: the table is complete before resolution, so it resolves.
    let reg = build(&[("aa_needs_zz", false, Some("zz_base")), ("zz_base", false, None)]);
    let dev = set(&reg.device_caps, &["aa_needs_zz", "zz_base"]);
    let inst = set(&reg.instance_caps, &[]);
    assert!(dev.validate(&reg, false, &inst, Version::new(1, 0, 0)).is_ok());
}
