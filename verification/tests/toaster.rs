use bedterm_core::toaster::icon_symbol;
use bedterm_core::toaster::{should_autodismiss, ToastAction, ToastKind, AUTO_DISMISS_SECS, MAX_VISIBLE};

#[test]
fn kind_from_u8_round_trips_and_clamps() {
    assert_eq!(ToastKind::from_u8(0), ToastKind::Info);
    assert_eq!(ToastKind::from_u8(1), ToastKind::Success);
    assert_eq!(ToastKind::from_u8(2), ToastKind::Warning);
    assert_eq!(ToastKind::from_u8(3), ToastKind::Error);
    // Out-of-range falls back to Info.
    assert_eq!(ToastKind::from_u8(99), ToastKind::Info);
}

#[test]
fn autodismiss_only_non_persistent_info_success() {
    assert!(should_autodismiss(ToastKind::Info, false));
    assert!(should_autodismiss(ToastKind::Success, false));
    assert!(!should_autodismiss(ToastKind::Warning, false));
    assert!(!should_autodismiss(ToastKind::Error, false));
    // Persistent never auto-dismisses, regardless of kind.
    assert!(!should_autodismiss(ToastKind::Info, true));
    assert!(!should_autodismiss(ToastKind::Success, true));
}

#[test]
fn kind_repr_values_match_swift_byte_protocol() {
    assert_eq!(ToastKind::Info as u8, 0);
    assert_eq!(ToastKind::Success as u8, 1);
    assert_eq!(ToastKind::Warning as u8, 2);
    assert_eq!(ToastKind::Error as u8, 3);
}

#[test]
fn kind_raw_matches_byte_protocol() {
    assert_eq!(ToastKind::Info.raw(), 0);
    assert_eq!(ToastKind::Success.raw(), 1);
    assert_eq!(ToastKind::Warning.raw(), 2);
    assert_eq!(ToastKind::Error.raw(), 3);
    for k in [ToastKind::Info, ToastKind::Success, ToastKind::Warning, ToastKind::Error] {
        assert_eq!(ToastKind::from_u8(k.raw()), k);
    }
}

#[test]
fn action_struct_fields_and_eq() {
    let action = ToastAction {
        title: "Retry".into(),
        destructive: false,
    };
    assert_eq!(action.title, "Retry");
    assert!(!action.destructive);

    let destructive = ToastAction {
        title: "Delete".into(),
        destructive: true,
    };
    assert_eq!(destructive.title, "Delete");
    assert!(destructive.destructive);

    assert_eq!(
        action,
        ToastAction {
            title: "Retry".into(),
            destructive: false,
        }
    );
    assert_ne!(action, destructive);
}

#[test]
fn kind_debug_format() {
    assert_eq!(format!("{:?}", ToastKind::Info), "Info");
    assert_eq!(format!("{:?}", ToastKind::Success), "Success");
    assert_eq!(format!("{:?}", ToastKind::Warning), "Warning");
    assert_eq!(format!("{:?}", ToastKind::Error), "Error");
}

#[test]
fn kind_clone_and_copy() {
    let cases = [
        ToastKind::Info,
        ToastKind::Success,
        ToastKind::Warning,
        ToastKind::Error,
    ];
    for &kind in &cases {
        let cloned = kind.clone();
        assert_eq!(kind, cloned);
        assert_eq!(format!("{kind:?}"), format!("{cloned:?}"));
        let copied = kind;
        assert_eq!(kind, copied);
    }
}

#[test]
fn kind_partial_eq_exhaustive() {
    let variants = [
        ToastKind::Info,
        ToastKind::Success,
        ToastKind::Warning,
        ToastKind::Error,
    ];
    for (i, &a) in variants.iter().enumerate() {
        for (j, &b) in variants.iter().enumerate() {
            if i == j {
                assert_eq!(a, b, "same variant must equal itself");
            } else {
                assert_ne!(a, b, "different variants must not be equal");
            }
        }
    }
}

#[test]
fn kind_from_u8_is_idempotent() {
    let values = [0u8, 1, 2, 3];
    for &v in &values {
        let first = ToastKind::from_u8(v);
        let second = ToastKind::from_u8(v);
        assert_eq!(first, second);
    }
}

#[test]
fn action_debug_format() {
    let action = ToastAction {
        title: "Retry".into(),
        destructive: true,
    };
    let debug = format!("{action:?}");
    assert!(debug.contains("Retry"));
    assert!(debug.contains("destructive"));
    assert!(debug.contains("true"));
}

#[test]
fn action_clone() {
    let action = ToastAction {
        title: "Retry".into(),
        destructive: true,
    };
    let cloned = action.clone();
    assert_eq!(action, cloned);
    let modified = ToastAction {
        title: "Changed".into(),
        destructive: false,
    };
    assert_ne!(cloned, modified);
}

#[test]
fn constants_are_reasonable() {
    assert!(MAX_VISIBLE >= 1);
    assert!(MAX_VISIBLE <= 10);
    assert!(AUTO_DISMISS_SECS as f64 >= 1.0);
    assert!(AUTO_DISMISS_SECS as f64 <= 10.0);
}

#[test]
fn icon_symbol_per_kind() {
    assert_eq!(icon_symbol(ToastKind::Info), "info");
    assert_eq!(icon_symbol(ToastKind::Success), "checkmark");
    assert_eq!(icon_symbol(ToastKind::Warning), "exclamationmark");
    assert_eq!(icon_symbol(ToastKind::Error), "exclamationmark");
}
