use audit_core::ident::{replace_hyphens, Ident, IdentPath, Pattern};

#[test]
fn test_replace_hyphens() {
    let mut s1 = "abcd_efgh_ijkl".to_string();
    let mut s2 = "abcd-efgh_ijkl".to_string();
    let mut s3 = "abcd-efgh-ijkl".to_string();
    let s = s1.clone();
    replace_hyphens(&mut s1);
    replace_hyphens(&mut s2);
    replace_hyphens(&mut s3);
    assert_eq!(s1, s);
    assert_eq!(s2, s);
    assert_eq!(s3, s);
}

#[test]
fn test_path_patterns() {
    let p = IdentPath::new("std::fs");
    let pats: Vec<Pattern> = p.patterns();
    let pat1 = Pattern::new("std");
    let pat2 = Pattern::new("std::fs");
    assert_eq!(pats, vec![pat1, pat2])
}

#[test]
fn test_path_matches() {
    let p = IdentPath::new("std::fs");
    let pat1 = Pattern::new("std");
    let pat2 = Pattern::new("std::fs");
    let pat3 = Pattern::new("std::fs::File");
    let pat4 = Pattern::new("std::os");
    assert!(p.matches(&pat1));
    assert!(p.matches(&pat2));
    assert!(!p.matches(&pat3));
    assert!(!p.matches(&pat4));
}

#[test]
fn test_pattern_subset_superset() {
    let pat1 = Pattern::new("std");
    let pat2 = Pattern::new("std::fs");
    let pat3 = Pattern::new("std::fs::File");
    let pat4 = Pattern::new("std::os");

    assert!(pat1.superset(&pat2));
    assert!(pat1.superset(&pat3));
    assert!(pat2.superset(&pat3));

    assert!(pat2.subset(&pat1));
    assert!(pat3.subset(&pat1));
    assert!(pat3.subset(&pat2));

    assert!(pat1.subset(&pat1));
    assert!(pat2.subset(&pat2));
    assert!(pat4.subset(&pat4));

    assert!(!pat1.subset(&pat2));
    assert!(!pat2.subset(&pat4));
    assert!(!pat4.subset(&pat2));
}

#[test]
fn hyphens_normalize_to_underscores() {
    assert_eq!(Ident::new("foo-bar"), Ident::new("foo_bar"));
    assert_eq!(Ident::new("foo-bar").as_str(), "foo_bar");
}

#[test]
fn empty_ident_is_soft_invalid_but_constructed() {
    let i = Ident::new("");
    assert_eq!(i.as_str(), "");
    assert!(!i.invariant_ok());
}

#[test]
fn raw_marker_and_bad_characters() {
    assert!(Ident::new("r#type").invariant_ok());
    assert!(Ident::new("abc_123").invariant_ok());
    assert!(!Ident::new("a b").invariant_ok());
    assert!(!Ident::new("a::b").invariant_ok());
    assert!(IdentPath::new("a::b").invariant_ok());
    assert!(IdentPath::new("").invariant_ok());
    assert!(!IdentPath::new("a::b c").invariant_ok());
}

#[test]
fn push_three_then_pop_three_yields_empty() {
    let mut p = IdentPath::new_empty();
    p.push_ident(&Ident::new("std"));
    p.push_ident(&Ident::new("fs"));
    p.push_ident(&Ident::new("File"));
    assert_eq!(p.as_str(), "std::fs::File");
    assert_eq!(p.pop_ident(), Some(Ident::new("File")));
    assert_eq!(p.pop_ident(), Some(Ident::new("fs")));
    assert_eq!(p.pop_ident(), Some(Ident::new("std")));
    assert!(p.is_empty());
    assert_eq!(p.pop_ident(), None);
    assert!(p.is_empty());
}

#[test]
fn prefixes_in_order_no_duplicates() {
    let p = IdentPath::new("std::fs::File");
    let pats: Vec<Pattern> = p.patterns();
    assert_eq!(
        pats,
        vec![Pattern::new("std"), Pattern::new("std::fs"), Pattern::new("std::fs::File")]
    );
    assert!(IdentPath::new_empty().patterns().is_empty());
}

#[test]
fn first_and_last_peek_without_consuming() {
    let p = IdentPath::new("std::fs::File");
    assert_eq!(p.first_ident(), Some(Ident::new("std")));
    assert_eq!(p.last_ident(), Some(Ident::new("File")));
    assert_eq!(p.as_str(), "std::fs::File");
    let single = IdentPath::new("std");
    assert_eq!(single.first_ident(), Some(Ident::new("std")));
    assert_eq!(single.last_ident(), Some(Ident::new("std")));
    assert_eq!(IdentPath::new_empty().first_ident(), None);
    assert_eq!(IdentPath::new_empty().last_ident(), None);
}

#[test]
fn append_joins_only_nonempty_sides() {
    let mut p = IdentPath::new("std");
    p.append(&IdentPath::new("fs::File"));
    assert_eq!(p.as_str(), "std::fs::File");
    let mut q = IdentPath::new_empty();
    q.append(&IdentPath::new("core"));
    assert_eq!(q.as_str(), "core");
    let mut r = IdentPath::new("std");
    r.append(&IdentPath::new_empty());
    assert_eq!(r.as_str(), "std");
}

#[test]
fn from_idents_and_segments() {
    let p = IdentPath::from_idents(vec![Ident::new("a"), Ident::new("b"), Ident::new("c")]);
    assert_eq!(p.as_str(), "a::b::c");
    assert_eq!(p.len(), 3);
    let ids = p.idents();
    assert_eq!(ids, vec![Ident::new("a"), Ident::new("b"), Ident::new("c")]);
    assert_eq!(IdentPath::from_ident(Ident::new("solo")).as_str(), "solo");
    assert!(IdentPath::default().is_empty());
}

#[test]
fn fresh_filter_keeps_first_occurrences() {
    let v = vec![Pattern::new("a"), Pattern::new("b"), Pattern::new("a"), Pattern::new("c")];
    let r = audit_core::fresh::fresh_filter(v);
    assert_eq!(r, vec![Pattern::new("a"), Pattern::new("b"), Pattern::new("c")]);
}
