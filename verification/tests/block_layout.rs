use gpu_layout::host::{HostField, HostType};
use gpu_layout::layout::{ArrayShape, BlockLayout};
use gpu_layout::mismatch::LayoutMismatchError;
use gpu_layout::type_tag::{Dim, ScalarKind, TypeTag};

fn vec2() -> TypeTag {
    TypeTag::Vector(ScalarKind::F32, Dim::Two)
}

fn vec3() -> TypeTag {
    TypeTag::Vector(ScalarKind::F32, Dim::Three)
}

fn mat3() -> TypeTag {
    TypeTag::Matrix(ScalarKind::F32, Dim::Three, Dim::Three)
}

fn host_leaf(tag: TypeTag) -> HostType {
    HostType::Leaf { tag, array: None }
}

fn field(name: &str, offset: usize, ty: HostType) -> HostField {
    HostField { name: name.to_string(), offset, ty }
}

fn aggregate(fields: Vec<HostField>) -> HostType {
    HostType::Aggregate { fields }
}

fn leaf(tag: TypeTag, offset: usize) -> BlockLayout {
    BlockLayout::Leaf { tag, offset, array: None }
}

fn member(name: &str, layout: BlockLayout) -> (String, BlockLayout) {
    (name.to_string(), layout)
}

fn structure(members: Vec<(String, BlockLayout)>) -> BlockLayout {
    BlockLayout::Struct { members }
}

fn transform_host() -> HostType {
    aggregate(vec![field(
        "xf",
        0,
        aggregate(vec![field("pos", 0, host_leaf(vec2())), field("rot", 16, host_leaf(vec3()))]),
    )])
}

#[test]
fn missing_field_in_host() {
    let host = aggregate(vec![field("position", 0, host_leaf(vec2()))]);
    let reflected = structure(vec![
        member("position", leaf(vec2(), 0)),
        member("extra", leaf(vec3(), 16)),
    ]);
    assert_eq!(
        host.matches(&reflected, 0),
        Err(LayoutMismatchError::MissingField { name: "extra".to_string() })
    );
}

#[test]
fn aggregate_against_leaf_is_a_layout_mismatch() {
    let host = aggregate(vec![field("position", 0, host_leaf(vec2()))]);
    let reflected = leaf(TypeTag::Scalar(ScalarKind::F32), 0);
    assert_eq!(
        host.matches(&reflected, 0),
        Err(LayoutMismatchError::LayoutMismatch {
            expected: structure(vec![member("position", leaf(vec2(), 0))]),
            obtained: leaf(TypeTag::Scalar(ScalarKind::F32), 0),
        })
    );
}

#[test]
fn nested_failure_carries_the_path() {
    let host = transform_host();
    let reflected = structure(vec![member(
        "xf",
        structure(vec![member("pos", leaf(vec2(), 0)), member("rot", leaf(mat3(), 16))]),
    )]);
    let error = host.matches(&reflected, 0).unwrap_err();
    assert_eq!(
        error,
        LayoutMismatchError::MemberMismatch {
            member: "xf".to_string(),
            cause: Box::new(LayoutMismatchError::MemberMismatch {
                member: "rot".to_string(),
                cause: Box::new(LayoutMismatchError::LayoutMismatch {
                    expected: leaf(vec3(), 16),
                    obtained: leaf(mat3(), 16),
                }),
            }),
        }
    );
    assert_eq!(error.path(), vec!["xf".to_string(), "rot".to_string()]);
    assert_eq!(
        error.root_cause(),
        &LayoutMismatchError::LayoutMismatch { expected: leaf(vec3(), 16), obtained: leaf(mat3(), 16) }
    );
}

#[test]
fn host_matches_its_own_layout() {
    let host = transform_host();
    for base in [0usize, 16, 4096] {
        assert!(host.fits(base));
        let layout = host.build_layout(base);
        assert_eq!(host.matches(&layout, base), Ok(()));
    }
}

#[test]
fn own_layout_at_another_base_does_not_match() {
    let host = transform_host();
    let layout = host.build_layout(16);
    let error = host.matches(&layout, 0).unwrap_err();
    assert_eq!(error.path(), vec!["xf".to_string(), "pos".to_string()]);
    assert_eq!(
        error.root_cause(),
        &LayoutMismatchError::LayoutMismatch { expected: leaf(vec2(), 0), obtained: leaf(vec2(), 16) }
    );
}

#[test]
fn build_layout_adds_offsets_along_the_path() {
    let host = aggregate(vec![
        field("scale", 4, host_leaf(TypeTag::Scalar(ScalarKind::F32))),
        field(
            "xf",
            32,
            aggregate(vec![field("pos", 0, host_leaf(vec2())), field("rot", 16, host_leaf(vec3()))]),
        ),
    ]);
    assert_eq!(
        host.build_layout(100),
        structure(vec![
            member("scale", leaf(TypeTag::Scalar(ScalarKind::F32), 104)),
            member(
                "xf",
                structure(vec![member("pos", leaf(vec2(), 132)), member("rot", leaf(vec3(), 148))]),
            ),
        ])
    );
}

#[test]
fn build_layout_of_a_leaf_is_a_leaf_at_the_base() {
    let shape = ArrayShape { stride: 16, count: 4 };
    let host = HostType::Leaf { tag: vec3(), array: Some(shape) };
    assert_eq!(
        host.build_layout(48),
        BlockLayout::Leaf { tag: vec3(), offset: 48, array: Some(shape) }
    );
}

#[test]
fn member_order_does_not_matter() {
    let host = aggregate(vec![
        field("a", 0, host_leaf(vec2())),
        field("b", 16, host_leaf(vec3())),
        field("c", 32, host_leaf(mat3())),
    ]);
    let reflected = structure(vec![
        member("c", leaf(mat3(), 32)),
        member("a", leaf(vec2(), 0)),
        member("b", leaf(vec3(), 16)),
    ]);
    assert_eq!(host.matches(&reflected, 0), Ok(()));
}

#[test]
fn field_missing_from_reflection() {
    let host = aggregate(vec![
        field("position", 0, host_leaf(vec2())),
        field("unused", 8, host_leaf(vec3())),
    ]);
    let reflected = structure(vec![member("position", leaf(vec2(), 0))]);
    assert_eq!(
        host.matches(&reflected, 0),
        Err(LayoutMismatchError::MissingField { name: "unused".to_string() })
    );
}

#[test]
fn undeclared_member_is_reported_before_any_field() {
    // "position" would fail inside, but the stray member is looked for first.
    let host = aggregate(vec![field("position", 0, host_leaf(vec2()))]);
    let reflected = structure(vec![
        member("position", leaf(vec3(), 0)),
        member("extra", leaf(vec3(), 16)),
    ]);
    assert_eq!(
        host.matches(&reflected, 0),
        Err(LayoutMismatchError::MissingField { name: "extra".to_string() })
    );
}

#[test]
fn first_undeclared_member_in_reflected_order_wins() {
    let host = aggregate(vec![field("position", 0, host_leaf(vec2()))]);
    let reflected = structure(vec![
        member("zeta", leaf(vec3(), 32)),
        member("position", leaf(vec2(), 0)),
        member("alpha", leaf(vec3(), 16)),
    ]);
    assert_eq!(
        host.matches(&reflected, 0),
        Err(LayoutMismatchError::MissingField { name: "zeta".to_string() })
    );
}

#[test]
fn first_failing_field_in_declaration_order_wins() {
    let host = aggregate(vec![
        field("a", 0, host_leaf(vec2())),
        field("b", 16, host_leaf(vec3())),
        field("c", 32, host_leaf(vec3())),
    ]);
    let reflected = structure(vec![
        member("c", leaf(vec2(), 32)),
        member("b", leaf(vec2(), 16)),
        member("a", leaf(vec2(), 0)),
    ]);
    assert_eq!(
        host.matches(&reflected, 0),
        Err(LayoutMismatchError::MemberMismatch {
            member: "b".to_string(),
            cause: Box::new(LayoutMismatchError::LayoutMismatch {
                expected: leaf(vec3(), 16),
                obtained: leaf(vec2(), 16),
            }),
        })
    );
}

#[test]
fn leaf_against_struct_is_a_layout_mismatch() {
    let host = aggregate(vec![field("position", 0, host_leaf(vec2()))]);
    let reflected = structure(vec![member(
        "position",
        structure(vec![member("x", leaf(TypeTag::Scalar(ScalarKind::F32), 0))]),
    )]);
    assert_eq!(
        host.matches(&reflected, 0),
        Err(LayoutMismatchError::MemberMismatch {
            member: "position".to_string(),
            cause: Box::new(LayoutMismatchError::LayoutMismatch {
                expected: leaf(vec2(), 0),
                obtained: structure(vec![member("x", leaf(TypeTag::Scalar(ScalarKind::F32), 0))]),
            }),
        })
    );
}

#[test]
fn leaf_offset_must_agree() {
    let host = aggregate(vec![field("position", 8, host_leaf(vec2()))]);
    let at_eight = structure(vec![member("position", leaf(vec2(), 8))]);
    let at_sixteen = structure(vec![member("position", leaf(vec2(), 16))]);
    assert_eq!(host.matches(&at_eight, 0), Ok(()));
    assert_eq!(host.matches(&at_sixteen, 8), Ok(()));
    assert_eq!(
        host.matches(&at_sixteen, 0),
        Err(LayoutMismatchError::MemberMismatch {
            member: "position".to_string(),
            cause: Box::new(LayoutMismatchError::LayoutMismatch {
                expected: leaf(vec2(), 8),
                obtained: leaf(vec2(), 16),
            }),
        })
    );
}

#[test]
fn array_stride_and_count_must_agree() {
    let shape = ArrayShape { stride: 16, count: 8 };
    let host = aggregate(vec![field("weights", 0, HostType::Leaf { tag: vec3(), array: Some(shape) })]);
    let same = structure(vec![member(
        "weights",
        BlockLayout::Leaf { tag: vec3(), offset: 0, array: Some(shape) },
    )]);
    assert_eq!(host.matches(&same, 0), Ok(()));

    for other in [
        Some(ArrayShape { stride: 12, count: 8 }),
        Some(ArrayShape { stride: 16, count: 7 }),
        None,
    ] {
        let reflected =
            structure(vec![member("weights", BlockLayout::Leaf { tag: vec3(), offset: 0, array: other })]);
        assert_eq!(
            host.matches(&reflected, 0),
            Err(LayoutMismatchError::MemberMismatch {
                member: "weights".to_string(),
                cause: Box::new(LayoutMismatchError::LayoutMismatch {
                    expected: BlockLayout::Leaf { tag: vec3(), offset: 0, array: Some(shape) },
                    obtained: BlockLayout::Leaf { tag: vec3(), offset: 0, array: other },
                }),
            })
        );
    }
}

#[test]
fn top_level_leaf_host() {
    let host = host_leaf(vec2());
    assert_eq!(host.matches(&leaf(vec2(), 24), 24), Ok(()));
    assert_eq!(
        host.matches(&structure(vec![]), 24),
        Err(LayoutMismatchError::LayoutMismatch {
            expected: leaf(vec2(), 24),
            obtained: structure(vec![]),
        })
    );
}

#[test]
fn empty_aggregate_matches_empty_struct_only() {
    let host = aggregate(vec![]);
    assert_eq!(host.matches(&structure(vec![]), 0), Ok(()));
    assert_eq!(
        host.matches(&structure(vec![member("x", leaf(vec2(), 0))]), 0),
        Err(LayoutMismatchError::MissingField { name: "x".to_string() })
    );
}

#[test]
fn repeated_reflected_name_resolves_to_the_first() {
    let host = aggregate(vec![field("a", 0, host_leaf(vec2()))]);
    let first_good =
        structure(vec![member("a", leaf(vec2(), 0)), member("a", leaf(vec3(), 16))]);
    let first_bad =
        structure(vec![member("a", leaf(vec3(), 16)), member("a", leaf(vec2(), 0))]);
    assert_eq!(host.matches(&first_good, 0), Ok(()));
    assert!(matches!(
        host.matches(&first_bad, 0),
        Err(LayoutMismatchError::MemberMismatch { .. })
    ));
}

#[test]
fn fits_rejects_offsets_past_the_machine_range() {
    let host = aggregate(vec![field("far", usize::MAX - 4, host_leaf(vec2()))]);
    assert!(host.fits(0));
    assert!(host.fits(4));
    assert!(!host.fits(5));
    assert!(host_leaf(vec2()).fits(usize::MAX));

    let nested = aggregate(vec![field("outer", usize::MAX - 10, aggregate(vec![field("inner", 8, host_leaf(vec2()))]))]);
    assert!(nested.fits(2));
    assert!(!nested.fits(3));
}

#[test]
fn error_path_of_a_root_failure_is_empty() {
    let error = LayoutMismatchError::MissingField { name: "extra".to_string() };
    assert!(error.path().is_empty());
    assert_eq!(error.root_cause(), &error);
}

#[test]
fn clones_are_equal_to_their_source() {
    let layout = transform_host().build_layout(8);
    assert_eq!(layout.clone(), layout);
    let error = LayoutMismatchError::MemberMismatch {
        member: "xf".to_string(),
        cause: Box::new(LayoutMismatchError::LayoutMismatch {
            expected: layout.clone(),
            obtained: leaf(vec2(), 0),
        }),
    };
    assert_eq!(error.clone(), error);
}

#[test]
fn distinct_names_are_checked_in_every_aggregate() {
    assert!(transform_host().has_distinct_names());
    assert!(host_leaf(vec2()).has_distinct_names());
    assert!(aggregate(vec![]).has_distinct_names());

    let twice = aggregate(vec![
        field("a", 0, host_leaf(vec2())),
        field("b", 8, host_leaf(vec2())),
        field("a", 16, host_leaf(vec3())),
    ]);
    assert!(!twice.has_distinct_names());

    let nested = aggregate(vec![field("outer", 0, twice)]);
    assert!(!nested.has_distinct_names());

    // The same name in two different aggregates is no clash.
    let apart = aggregate(vec![
        field("a", 0, aggregate(vec![field("a", 0, host_leaf(vec2()))])),
        field("b", 16, aggregate(vec![field("a", 0, host_leaf(vec2()))])),
    ]);
    assert!(apart.has_distinct_names());
}

#[test]
fn repeated_field_name_breaks_the_round_trip() {
    let twice = aggregate(vec![
        field("a", 0, host_leaf(vec2())),
        field("a", 16, host_leaf(vec3())),
    ]);
    let layout = twice.build_layout(0);
    assert_eq!(
        twice.matches(&layout, 0),
        Err(LayoutMismatchError::MemberMismatch {
            member: "a".to_string(),
            cause: Box::new(LayoutMismatchError::LayoutMismatch {
                expected: leaf(vec3(), 16),
                obtained: leaf(vec2(), 0),
            }),
        })
    );
}

#[test]
fn exchanging_two_members_keeps_the_outcome() {
    let host = transform_host();
    let straight = structure(vec![member(
        "xf",
        structure(vec![member("pos", leaf(vec2(), 0)), member("rot", leaf(vec3(), 16))]),
    )]);
    let exchanged = structure(vec![member(
        "xf",
        structure(vec![member("rot", leaf(vec3(), 16)), member("pos", leaf(vec2(), 0))]),
    )]);
    assert_eq!(host.matches(&straight, 0), Ok(()));
    assert_eq!(host.matches(&exchanged, 0), Ok(()));
}

#[test]
fn nested_aggregates_take_the_base_offset() {
    let host = transform_host();
    let reflected = structure(vec![member(
        "xf",
        structure(vec![member("pos", leaf(vec2(), 64)), member("rot", leaf(vec3(), 80))]),
    )]);
    assert_eq!(host.matches(&reflected, 64), Ok(()));
    assert!(host.matches(&reflected, 0).is_err());
}
