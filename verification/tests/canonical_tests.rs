use audit_core::canonical::{CallableKind, CanonicalPath, CanonicalType, TypeKind};
use audit_core::effect::SrcLoc;
use audit_core::ident::{Ident, Pattern};

#[test]
fn canonical_path_basics() {
    let p = CanonicalPath::new("std::fs::File");
    assert_eq!(p.as_str(), "std::fs::File");
    assert_eq!(p.crate_name(), Ident::new("std"));
    assert!(p.invariant_ok());
    assert!(p.matches(&Pattern::new("std::fs")));
    assert!(!p.matches(&Pattern::new("core")));
}

#[test]
fn canonical_path_push_pop_append() {
    let mut p = CanonicalPath::new("std");
    p.push_ident(&Ident::new("fs"));
    assert_eq!(p.as_str(), "std::fs");
    p.append_path(&audit_core::ident::IdentPath::new("File"));
    assert_eq!(p.as_str(), "std::fs::File");
    assert_eq!(p.pop_ident(), Some(Ident::new("File")));
    assert_eq!(p.as_str(), "std::fs");
    assert_eq!(p.clone().to_path().as_str(), "std::fs");
    assert_eq!(p.as_path().as_str(), "std::fs");
}

#[test]
fn equality_includes_attached_location() {
    let mut a = CanonicalPath::new("std::fs::File");
    let b = CanonicalPath::new("std::fs::File");
    assert_eq!(a, b);
    let with_loc = a.add_src_loc(SrcLoc::new("src".to_string(), "lib.rs".to_string(), 3, 7));
    assert_eq!(a, with_loc);
    assert_ne!(a, b);
    a.remove_src_loc();
    assert_eq!(a, b);
}

#[test]
fn empty_canonical_path_is_soft_invalid() {
    let p = CanonicalPath::new("");
    assert!(!p.invariant_ok());
    assert_eq!(p.crate_name(), Ident::new(""));
}

#[test]
fn raw_pointer_kind_answers_only_its_own_predicate() {
    let t = CanonicalType::new_owned("*mut u8".to_string(), vec![], TypeKind::RawPointer);
    assert!(t.is_raw_ptr());
    assert!(!t.is_callable());
    assert!(!t.is_dyn_trait());
    assert!(!t.is_generic());
    assert!(!t.is_closure());
    assert!(!t.is_union_field());
    assert!(!t.is_mut_static());
    assert!(!t.is_function());
    assert!(!t.is_fn_ptr());
    assert_eq!(t.get_callable_kind(), None);
}

#[test]
fn callable_kinds_and_predicates() {
    let c = CanonicalType::new_owned(
        "fn(u8) -> u8".to_string(),
        vec![],
        TypeKind::Callable(CallableKind::FnPtr),
    );
    assert!(c.is_callable());
    assert!(c.is_fn_ptr());
    assert!(!c.is_closure());
    assert_eq!(c.get_callable_kind(), Some(CallableKind::FnPtr));
    let cl = CanonicalType::new_owned(
        "impl Fn()".to_string(),
        vec![],
        TypeKind::Callable(CallableKind::Closure),
    );
    assert!(cl.is_closure());
    assert!(!cl.is_fn_ptr());
    assert_eq!(cl.get_callable_kind(), Some(CallableKind::Closure));
}

#[test]
fn type_invariant_and_trait_bounds() {
    let mut t = CanonicalType::new("Vec<T>");
    assert_eq!(t.as_str(), "Vec<T>");
    assert!(t.invariant_ok());
    assert!(!CanonicalType::new("bad\"quote").invariant_ok());
    assert_eq!(t.get_trait_bounds().len(), 0);
    t.add_trait_bound(CanonicalPath::new("core::clone::Clone"));
    t.add_trait_bound(CanonicalPath::new("core::fmt::Debug"));
    let bounds = t.get_trait_bounds();
    assert_eq!(bounds.len(), 2);
    assert_eq!(bounds[0].as_str(), "core::clone::Clone");
    assert_eq!(bounds[1].as_str(), "core::fmt::Debug");
}

#[test]
fn type_defaults() {
    let t = CanonicalType::default();
    assert_eq!(t.as_str(), "");
    assert!(!t.is_raw_ptr());
    assert_eq!(TypeKind::default(), TypeKind::Plain);
}

#[test]
fn src_loc_sub1_clamps_at_zero() {
    let l = SrcLoc::new("d".to_string(), "f.rs".to_string(), 1, 3);
    let z = l.sub1();
    assert_eq!(z.start_line(), 0);
    assert_eq!(z.end_line(), 2);
    let zero = SrcLoc::new("d".to_string(), "f.rs".to_string(), 0, 0).sub1();
    assert_eq!(zero.start_line(), 0);
    assert_eq!(zero.end_line(), 0);
    assert_eq!(SrcLoc::default().start_line(), 0);
}
