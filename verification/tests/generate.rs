use capset::{
    generate_extensions, parse_dependencies, resolve, AnyOf, Extension, Extracted, Registry,
};

fn build(records: &[(&str, bool, Option<&str>)]) -> Registry {
    let mut acc = Extracted::new();
    for (name, is_instance, expr) in records {
        let any_of = match expr {
            Some(e) => parse_dependencies(e).unwrap(),
            None => AnyOf(vec![]),
        };
        acc.push_extension(Extension {
            name: name.to_string(),
            any_of,
            is_instance: *is_instance,
        });
    }
    resolve(&acc.finish().unwrap()).unwrap()
}

#[test]
fn single_capability_generates_exactly() {
    let reg = build(&[("VK_KHR_surface", true, None)]);
    let text = generate_extensions(&reg, true);
    let expected_lines = [
        "/// Extensions for an [`Instance`].",
        "#[derive(Clone, Debug, Default, PartialEq, Eq)]",
        "pub struct InstanceExtensions {",
        "    /// Enable the [`VK_KHR_surface`]() extension.",
        "    pub khr_surface: bool,",
        "}",
        "",
        "impl InstanceExtensions {",
        "    pub(crate) fn from_names<'a>(names: impl Iterator<Item = &'a str>) -> Self {",
        "        let mut extensions = Self::default();",
        "",
        "        for name in names {",
        "            match name {",
        "                \"VK_KHR_surface\" => {",
        "                    extensions.khr_surface = true;",
        "                },",
        "                _ => {}",
        "            }",
        "        }",
        "",
        "        extensions",
        "    }",
        "    fn extension_names(&self) -> Vec<*const ffi::c_char> {",
        "        let mut names = Vec::new();",
        "",
        "        if self.khr_surface {",
        "            names.push(c\"VK_KHR_surface\".as_ptr());",
        "        }",
        "",
        "        names",
        "    }",
        "    fn validate(",
        "        &self,",
        "        api_version: Version,",
        "    ) -> Result<(), ValidationError> {",
        "",
        "        Ok(())",
        "    }",
        "    /// Check if no extensions are enabled.",
        "    pub fn is_empty(&self) -> bool {",
        "        true",
        " && !self.khr_surface",
        "    }",
        "",
        "    /// Combine two sets of extensions into one.",
        "    pub fn union(&self, other: &Self) -> Self {",
        "        Self {",
        "            khr_surface: self.khr_surface || other.khr_surface,",
        "        }",
        "    }",
        "    /// Compute the intersection of two sets of extensions.",
        "    pub fn intersection(&self, other: &Self) -> Self {",
        "        Self {",
        "            khr_surface: self.khr_surface && other.khr_surface,",
        "        }",
        "    }",
        "    /// Check if the extension is enabled.",
        "    pub fn contains(&self, other: &Self) -> bool {",
        "        true",
        " && (!self.khr_surface || other.khr_surface)",
        "    }",
        "    /// Compute the difference of two sets of extensions.",
        "    pub fn difference(&self, other: &Self) -> Self {",
        "        Self {",
        "            khr_surface: self.khr_surface && !other.khr_surface,",
        "        }",
        "    }",
        "}",
    ];
    let expected = expected_lines.join("\n") + "\n";
    assert_eq!(text, expected);
}

const RECORDS: &[(&str, bool, Option<&str>)] = &[
    ("VK_KHR_get_physical_device_properties2", true, None),
    ("VK_KHR_surface", true, None),
    (
        "VK_KHR_swapchain",
        false,
        Some("VK_KHR_surface"),
    ),
    (
        "VK_EXT_composite",
        false,
        Some("(VK_VERSION_1_1,VK_KHR_get_physical_device_properties2)+VK_KHR_swapchain"),
    ),
];

#[test]
fn regeneration_is_byte_identical() {
    let first_reg = build(RECORDS);
    let second_reg = build(RECORDS);
    for inst in [true, false] {
        let a = generate_extensions(&first_reg, inst);
        let b = generate_extensions(&second_reg, inst);
        assert_eq!(a, b);
    }
}

#[test]
fn registry_order_does_not_change_the_output() {
    // The table is sorted by name before anything reads it, so the order in
    // which records were extracted leaves no trace in the output.
    let forward = build(RECORDS);
    let mut reversed: Vec<(&str, bool, Option<&str>)> = RECORDS.to_vec();
    reversed.reverse();
    let backward = build(&reversed);
    for inst in [true, false] {
        assert_eq!(
            generate_extensions(&forward, inst),
            generate_extensions(&backward, inst)
        );
    }
}

#[test]
fn generated_validator_reflects_the_requirements() {
    let reg = build(RECORDS);
    let device_text = generate_extensions(&reg, false);
    // The cross-scope reference is checked against the instance set.
    assert!(device_text.contains("if self.khr_swapchain && (false || !instance_extensions.khr_surface)"));
    // The distributed requirement of the composite capability: each
    // alternative pairs a floor or an instance capability with the swapchain
    // capability.
    assert!(device_text.contains(
        "if self.ext_composite && (api_version < Version::V1_1 || !self.khr_swapchain) && (false || !instance_extensions.khr_get_physical_device_properties2 || !self.khr_swapchain)"
    ));
    assert!(device_text.contains("api_version: Some(Version::V1_1),"));
    assert!(device_text.contains("\"VUID-vkCreateDevice-ppEnabledExtensionNames-01387\""));

    let instance_text = generate_extensions(&reg, true);
    assert!(instance_text.contains("pub struct InstanceExtensions {"));
    assert!(instance_text.contains("pub khr_surface: bool,"));
    assert!(!instance_text.contains("khr_swapchain"));
}

#[test]
fn generate_all_matches_the_per_scope_generators() {
    let mut acc = Extracted::new();
    for (name, is_instance, expr) in RECORDS {
        let any_of = match expr {
            Some(e) => parse_dependencies(e).unwrap(),
            None => AnyOf(vec![]),
        };
        acc.push_extension(Extension {
            name: name.to_string(),
            any_of,
            is_instance: *is_instance,
        });
    }
    let table = acc.finish().unwrap();
    let reg = capset::resolve(&table).unwrap();
    let (inst_src, dev_src) = capset::generate_all(&table).unwrap();
    assert_eq!(inst_src, generate_extensions(&reg, true));
    assert_eq!(dev_src, generate_extensions(&reg, false));
}

#[test]
fn fields_are_sorted_by_name() {
    let reg = build(RECORDS);
    let text = generate_extensions(&reg, false);
    let composite = text.find("pub ext_composite: bool,").unwrap();
    let swapchain = text.find("pub khr_swapchain: bool,").unwrap();
    assert!(composite < swapchain);
}

#[test]
fn doc_comment_lists_the_alternatives() {
    let reg = build(RECORDS);
    let text = generate_extensions(&reg, false);
    assert!(text.contains("    /// Requires any of the following:\n"));
    assert!(text.contains(
        "    /// - [`API version 1`](crate::Version) and all of the following extensions:\n"
    ));
    assert!(text.contains(
        "    ///   - [`VK_KHR_surface`](crate::InstanceExtensions::khr_surface)\n"
    ));
}
