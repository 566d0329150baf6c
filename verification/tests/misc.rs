use capset::{
    all_caps_to_pascal_case, u32_to_decimal, AnyOf, ColorSpace, Extension, Extent2d, Extent3d,
    Extracted, Offset2d, PresentMode, Rect2d, Sharing, Version,
};

#[test]
fn decimal_rendering() {
    assert_eq!(u32_to_decimal(0), "0");
    assert_eq!(u32_to_decimal(7), "7");
    assert_eq!(u32_to_decimal(42), "42");
    assert_eq!(u32_to_decimal(1000), "1000");
    assert_eq!(u32_to_decimal(4294967295), "4294967295");
}

#[test]
fn pascal_casing() {
    assert_eq!(all_caps_to_pascal_case("R8G8B8A8_SRGB"), "R8g8b8a8Srgb");
    assert_eq!(all_caps_to_pascal_case("ASTC_4x4_UNORM_BLOCK"), "Astc4x4UnormBlock");
    assert_eq!(all_caps_to_pascal_case(""), "");
    assert_eq!(all_caps_to_pascal_case("__a"), "A");
}

#[test]
fn capability_field_names() {
    let e = Extension {
        name: "VK_KHR_swapchain".to_string(),
        any_of: AnyOf(vec![]),
        is_instance: false,
    };
    assert_eq!(e.rust_name(), "khr_swapchain");
    let plain = Extension {
        name: "no_prefix".to_string(),
        any_of: AnyOf(vec![]),
        is_instance: false,
    };
    assert_eq!(plain.rust_name(), "no_prefix");
}

#[test]
fn format_records_are_found_or_added() {
    let mut acc = Extracted::new();
    let first = acc.get_format_or_insert("VK_FORMAT_R8G8B8A8_SRGB");
    assert_eq!(first, 0);
    assert_eq!(acc.formats.len(), 1);
    assert_eq!(acc.formats[0].name, "VK_FORMAT_R8G8B8A8_SRGB");
    assert!(acc.formats[0].block_size.is_none());
    let again = acc.get_format_or_insert("VK_FORMAT_R8G8B8A8_SRGB");
    assert_eq!(again, 0);
    assert_eq!(acc.formats.len(), 1);
    let second = acc.get_format_or_insert("VK_FORMAT_D32_SFLOAT");
    assert_eq!(second, 1);
    assert_eq!(acc.formats[1].rust_name(), "D32Sfloat");
}

#[test]
fn version_ordering() {
    let v1_0 = Version::new(1, 0, 0);
    let v1_2 = Version::new(1, 2, 0);
    let v2_0 = Version::new(2, 0, 0);
    assert!(v1_0.le(&v1_2));
    assert!(!v1_2.le(&v1_0));
    assert!(v1_2.ge(&v1_2));
    assert!(v2_0.ge(&v1_2));
    assert!(Version::new(1, 2, 1).ge(&v1_2));
    assert!(!Version::new(1, 1, 9).ge(&v1_2));
}

#[test]
fn version_unpacking() {
    // 1.2.197 packed as ten bits of major, ten of minor, twelve of patch.
    let packed: u32 = (1 << 22) | (2 << 12) | 197;
    let v = Version::from_vk_version(packed);
    assert_eq!(v, Version::new(1, 2, 197));
}

#[test]
fn version_capping_is_component_wise() {
    let offered = Version::new(1, 3, 250);
    assert_eq!(offered.capped(None), offered);
    assert_eq!(
        offered.capped(Some(Version::new(1, 1, 0))),
        Version::new(1, 1, 0)
    );
    // Each component is clamped on its own.
    assert_eq!(
        Version::new(2, 0, 100).capped(Some(Version::new(1, 5, 200))),
        Version::new(1, 0, 100)
    );
}

#[test]
fn validation_error_message_is_one_line() {
    let err = capset::ValidationError {
        context: "desc.enabled_extensions.khr_swapchain".to_string(),
        problem: "Extension is enabled, but requirements aren't met.".to_string(),
        vuids: vec![
            "VUID-vkCreateDevice-ppEnabledExtensionNames-01387".to_string(),
            "VUID-other".to_string(),
        ],
        requires_one_of: vec![],
    };
    assert_eq!(
        err.message(),
        "desc.enabled_extensions.khr_swapchain: Extension is enabled, but requirements aren't met. (VUIDs: VUID-vkCreateDevice-ppEnabledExtensionNames-01387, VUID-other)"
    );
}

#[test]
fn extents_and_rectangles() {
    let e2 = Extent2d::new(800, 600);
    assert!(!e2.is_zero());
    assert!(Extent2d::new(0, 0).is_zero());
    let e3 = Extent3d::new(1, 2, 3);
    assert!(!e3.is_zero());
    assert_eq!(e3.to_2d(), Extent2d::new(1, 2));
    assert!(Offset2d::new(0, 0).is_zero());
    assert!(!Offset2d::new(-1, 0).is_zero());
    let r = Rect2d::from_size(800, 600);
    assert_eq!(r.offset, Offset2d::new(0, 0));
    assert_eq!(r.extent, e2);
    assert_eq!(Rect2d::new(Offset2d::new(1, 2), e2).offset, Offset2d::new(1, 2));
}

#[test]
fn raw_enum_constants_round_trip() {
    assert_eq!(ColorSpace::from_raw(0), Some(ColorSpace::SrgbNonlinear));
    assert_eq!(
        ColorSpace::from_raw(1000104008),
        Some(ColorSpace::Hdr10St2084)
    );
    assert_eq!(ColorSpace::from_raw(5), None);
    assert_eq!(PresentMode::from_raw(2), Some(PresentMode::Fifo));
    assert_eq!(
        PresentMode::from_raw(1000361000),
        Some(PresentMode::FifoLatestReady)
    );
    assert_eq!(PresentMode::from_raw(4), None);
}

#[test]
fn sharing_carries_its_payload() {
    let exclusive: Sharing<&[u32]> = Sharing::Exclusive;
    let concurrent = Sharing::Concurrent(&[0u32, 1][..]);
    assert_eq!(exclusive, Sharing::Exclusive);
    match concurrent {
        Sharing::Concurrent(families) => assert_eq!(families, &[0, 1]),
        Sharing::Exclusive => panic!("expected concurrent sharing"),
    }
}

#[test]
fn non_ascii_names_are_rejected_at_freezing() {
    let mut acc = Extracted::new();
    acc.push_extension(Extension {
        name: "caf\u{e9}".to_string(),
        any_of: AnyOf(vec![]),
        is_instance: false,
    });
    assert!(matches!(
        acc.finish(),
        Err(capset::BuildError::NonAsciiName { .. })
    ));
}
