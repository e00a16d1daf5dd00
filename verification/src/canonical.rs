//! Canonical symbol identities and classified type descriptors.
//!
//! A `CanonicalPath` is a path from the root together with an attachable
//! source location; equality includes the location, so an explicit clearing
//! step turns one into a location-insensitive lookup key. A `CanonicalType`
//! is a textual type representation with a kind tag and an append-only list
//! of trait bounds.

use vstd::prelude::*;
use vstd::string::*;

use crate::effect::{loc_eq, loc_is_empty, SrcLoc};
use crate::ident::{first_item, Ident, IdentPath, Pattern};
use crate::text::{normalized, path_text_ok, pop_item, pop_rest, pushed, split_path, text_prefix};
use crate::warn::warn_invariant;

verus! {

/// A canonical path: a path of identifiers from the root, with a source
/// location. Should be nonempty; the check is soft.
#[derive(Debug, Eq, Hash)]
pub struct CanonicalPath {
    ident_path: IdentPath,
    src_loc: SrcLoc,
}

impl View for CanonicalPath {
    type V = Seq<char>;

    closed spec fn view(&self) -> Seq<char> {
        self.ident_path@
    }
}

impl DeepView for CanonicalPath {
    type V = Seq<char>;

    open spec fn deep_view(&self) -> Seq<char> {
        self.view()
    }
}

/// The location attached to a canonical path.
pub closed spec fn cp_loc(p: CanonicalPath) -> SrcLoc {
    p.src_loc
}

/// Spec-level equality of canonical paths: the text and the attached
/// location both take part, so two symbols that differ only in location
/// are distinct keys.
pub open spec fn cp_eq(a: CanonicalPath, b: CanonicalPath) -> bool {
    a@ == b@ && loc_eq(cp_loc(a), cp_loc(b))
}

impl Clone for CanonicalPath {
    fn clone(&self) -> (r: Self)
        ensures
            cp_eq(r, *self),
    {
        CanonicalPath { ident_path: self.ident_path.clone(), src_loc: self.src_loc.clone() }
    }
}

impl PartialEq for CanonicalPath {
    fn eq(&self, other: &Self) -> (r: bool)
        ensures
            r == cp_eq(*self, *other),
    {
        self.ident_path == other.ident_path && self.src_loc == other.src_loc
    }
}

impl vstd::std_specs::cmp::PartialEqSpecImpl for CanonicalPath {
    open spec fn obeys_eq_spec() -> bool {
        true
    }

    open spec fn eq_spec(&self, other: &Self) -> bool {
        cp_eq(*self, *other)
    }
}

impl CanonicalPath {
    /// Whether the held path is valid and nonempty.
    pub fn invariant_ok(&self) -> (b: bool)
        ensures
            b == (path_text_ok(self@) && self@.len() > 0),
    {
        self.ident_path.invariant_ok() && !self.ident_path.is_empty()
    }

    /// Reports a violated invariant; construction is never blocked by it.
    pub fn check_invariant(&self) {
        if !self.invariant_ok() {
            warn_invariant("CanonicalPath", self.ident_path.as_str());
        }
    }

    /// Builds a canonical path with no location attached.
    pub fn new(s: &str) -> (r: Self)
        ensures
            r@ == normalized(s@),
            loc_is_empty(cp_loc(r)),
    {
        Self::from_path(IdentPath::new(s), SrcLoc::default())
    }

    /// Builds a canonical path from an owned text and a location.
    pub fn new_owned(s: String, l: SrcLoc) -> (r: Self)
        ensures
            r@ == normalized(s@),
            cp_loc(r) == l,
    {
        Self::from_path(IdentPath::new_owned(s), l)
    }

    /// Wraps a path and a location as a canonical path.
    pub fn from_path(p: IdentPath, s: SrcLoc) -> (r: Self)
        ensures
            r@ == p@,
            cp_loc(r) == s,
    {
        let result = CanonicalPath { ident_path: p, src_loc: s };
        result.check_invariant();
        result
    }

    /// Appends one identifier; the location is kept.
    pub fn push_ident(&mut self, i: &Ident)
        ensures
            final (self)@ == pushed(old(self)@, i@),
            cp_loc(*final (self)) == cp_loc(*old(self)),
    {
        self.ident_path.push_ident(i);
        self.check_invariant();
    }

    /// Removes and returns the trailing segment; the location is kept.
    pub fn pop_ident(&mut self) -> (r: Option<Ident>)
        ensures
            final (self)@ == pop_rest(old(self)@),
            cp_loc(*final (self)) == cp_loc(*old(self)),
            r is Some <==> pop_item(old(self)@) is Some,
            r matches Some(id) ==> pop_item(old(self)@) matches Some(t) && id@ == normalized(t),
    {
        let result = self.ident_path.pop_ident();
        self.check_invariant();
        result
    }

    /// Concatenates a path onto this symbol; the location is kept.
    pub fn append_path(&mut self, other: &IdentPath)
        ensures
            final (self)@ == if other@.len() == 0 {
                old(self)@
            } else {
                pushed(old(self)@, other@)
            },
            cp_loc(*final (self)) == cp_loc(*old(self)),
    {
        self.ident_path.append(other);
        self.check_invariant();
    }

    /// The first segment: the crate the symbol comes from. On an empty
    /// path, a latent fault inherited from upstream data, the empty
    /// identifier comes back.
    pub fn crate_name(&self) -> (r: Ident)
        ensures
            r@ == normalized(split_path(self@)[0]),
    {
        match self.ident_path.first_ident() {
            Some(i) => i,
            None => {
                proof {
                    assert(first_item(self@) is None);
                    assert(self@.len() == 0);
                    assert(split_path(self@) == seq![self@]);
                    reveal_strlit("");
                    assert(normalized(""@) =~= normalized(self@));
                }
                Ident::new("")
            },
        }
    }

    /// Gives up the location and hands back the bare path.
    pub fn to_path(self) -> (r: IdentPath)
        ensures
            r@ == self@,
    {
        self.ident_path
    }

    pub fn as_path(&self) -> (r: &IdentPath)
        ensures
            r@ == self@,
    {
        &self.ident_path
    }

    pub fn as_str(&self) -> (r: &str)
        ensures
            r@ == self@,
    {
        self.ident_path.as_str()
    }

    /// A raw textual prefix test against the pattern.
    pub fn matches(&self, pattern: &Pattern) -> (b: bool)
        ensures
            b == text_prefix(pattern@, self@),
    {
        self.ident_path.matches(pattern)
    }

    /// The attached source location.
    pub fn src_loc(&self) -> (r: &SrcLoc)
        ensures
            *r == cp_loc(*self),
    {
        &self.src_loc
    }

    /// Clears the location, turning the symbol into a location-insensitive
    /// lookup key.
    pub fn remove_src_loc(&mut self)
        ensures
            final (self)@ == old(self)@,
            loc_is_empty(cp_loc(*final (self))),
    {
        self.src_loc = SrcLoc::default();
    }

    /// Attaches a location in place and returns the updated symbol.
    pub fn add_src_loc(&mut self, src_loc: SrcLoc) -> (r: Self)
        ensures
            final (self)@ == old(self)@,
            cp_loc(*final (self)) == src_loc,
            r@ == old(self)@,
            loc_eq(cp_loc(r), src_loc),
    {
        self.src_loc = src_loc;
        self.clone()
    }
}

/// The classification tag of a type descriptor.
#[derive(Debug, Clone, Copy, PartialEq, Eq, Structural, Hash)]
pub enum TypeKind {
    RawPointer,
    Callable(CallableKind),
    DynTrait,
    Generic,
    UnionFld,
    StaticMut,
    Function,
    /// Fully resolved types that need no extra information.
    Plain,
}

/// How a callable type came to be callable.
#[derive(Debug, Clone, Copy, PartialEq, Eq, Structural, Hash)]
pub enum CallableKind {
    Closure,
    FnPtr,
    FnOnce,
    Other,
}

impl Default for TypeKind {
    fn default() -> (r: Self)
        ensures
            r == TypeKind::Plain,
    {
        TypeKind::Plain
    }
}

/// A character allowed in a type text: ASCII alphanumeric, or one of the
/// punctuation marks type syntax uses.
pub open spec fn is_type_char(c: char) -> bool {
    ('a' <= c && c <= 'z') || ('A' <= c && c <= 'Z') || ('0' <= c && c <= '9') || c == '_' || c
        == '-' || c == '&' || c == '*' || c == '+' || c == '|' || c == '!' || c == '=' || c == '\''
        || c == ',' || c == ';' || c == ':' || c == '<' || c == '>' || c == '(' || c == ')' || c
        == '[' || c == ']' || c == '{' || c == '}' || c == ' '
}

/// A valid type text: every character is allowed.
pub open spec fn type_text_ok(s: Seq<char>) -> bool {
    forall|i: int| 0 <= i < s.len() ==> is_type_char(#[trigger] s[i])
}

/// A classified, textual type representation: the text, a kind tag, and an
/// append-only list of trait bounds.
#[derive(Debug)]
pub struct CanonicalType {
    ty: String,
    ty_kind: TypeKind,
    trait_bounds: Vec<CanonicalPath>,
}

impl View for CanonicalType {
    type V = Seq<char>;

    closed spec fn view(&self) -> Seq<char> {
        self.ty@
    }
}

/// The kind tag of a type descriptor.
pub closed spec fn ct_kind(t: CanonicalType) -> TypeKind {
    t.ty_kind
}

/// The trait bounds of a type descriptor, oldest first.
pub closed spec fn ct_bounds(t: CanonicalType) -> Seq<CanonicalPath> {
    t.trait_bounds@
}

impl Default for CanonicalType {
    fn default() -> (r: Self)
        ensures
            r@ == Seq::<char>::empty(),
            ct_kind(r) == TypeKind::Plain,
            ct_bounds(r).len() == 0,
    {
        CanonicalType { ty: String::new(), ty_kind: TypeKind::Plain, trait_bounds: Vec::new() }
    }
}

impl CanonicalType {
    fn char_ok(c: char) -> (b: bool)
        ensures
            b == is_type_char(c),
    {
        (('a' <= c && c <= 'z') || ('A' <= c && c <= 'Z') || ('0' <= c && c <= '9') || c == '_'
            || c == '-' || c == '&' || c == '*' || c == '+' || c == '|' || c == '!' || c == '='
            || c == '\'' || c == ',' || c == ';' || c == ':' || c == '<' || c == '>' || c == '('
            || c == ')' || c == '[' || c == ']' || c == '{' || c == '}' || c == ' ')
    }

    /// Whether the held text is restricted to the allowed character set.
    pub fn invariant_ok(&self) -> (b: bool)
        ensures
            b == type_text_ok(self@),
    {
        let s = self.ty.as_str();
        let n = s.unicode_len();
        let mut i: usize = 0;
        while i < n
            invariant
                i <= n,
                n == self@.len(),
                s@ == self@,
                forall|j: int| 0 <= j < i ==> is_type_char(#[trigger] self@[j]),
            decreases n - i,
        {
            if !Self::char_ok(s.get_char(i)) {
                return false;
            }
            i += 1;
        }
        true
    }

    /// Reports a violated invariant; construction is never blocked by it.
    pub fn check_invariant(&self) {
        if !self.invariant_ok() {
            warn_invariant("CanonicalType", self.ty.as_str());
        }
    }

    /// A plain descriptor holding exactly the given text.
    pub fn new(s: &str) -> (r: Self)
        ensures
            r@ == s@,
            ct_kind(r) == TypeKind::Plain,
            ct_bounds(r).len() == 0,
    {
        Self::new_owned_string(String::from_str(s))
    }

    /// A plain descriptor from an owned text.
    pub fn new_owned_string(s: String) -> (r: Self)
        ensures
            r@ == s@,
            ct_kind(r) == TypeKind::Plain,
            ct_bounds(r).len() == 0,
    {
        Self::new_owned(s, Vec::new(), TypeKind::Plain)
    }

    /// A descriptor from an owned text, trait bounds, and a kind tag.
    pub fn new_owned(s: String, b: Vec<CanonicalPath>, k: TypeKind) -> (r: Self)
        ensures
            r@ == s@,
            ct_kind(r) == k,
            ct_bounds(r) == b@,
    {
        let result = CanonicalType { ty: s, trait_bounds: b, ty_kind: k };
        result.check_invariant();
        result
    }

    pub fn as_str(&self) -> (r: &str)
        ensures
            r@ == self@,
    {
        self.ty.as_str()
    }

    /// Appends one trait bound; the list only ever grows.
    pub fn add_trait_bound(&mut self, trait_bound: CanonicalPath)
        ensures
            final (self)@ == old(self)@,
            ct_kind(*final (self)) == ct_kind(*old(self)),
            ct_bounds(*final (self)) == ct_bounds(*old(self)).push(trait_bound),
    {
        self.trait_bounds.push(trait_bound)
    }

    /// The kind tag of the descriptor.
    pub fn kind(&self) -> (r: TypeKind)
        ensures
            r == ct_kind(*self),
    {
        self.ty_kind
    }

    pub fn get_trait_bounds(&self) -> (r: &Vec<CanonicalPath>)
        ensures
            r@ == ct_bounds(*self),
    {
        &self.trait_bounds
    }

    pub fn is_raw_ptr(&self) -> (b: bool)
        ensures
            b == (ct_kind(*self) is RawPointer),
    {
        matches!(self.ty_kind, TypeKind::RawPointer)
    }

    pub fn is_callable(&self) -> (b: bool)
        ensures
            b == (ct_kind(*self) is Callable),
    {
        matches!(&self.ty_kind, TypeKind::Callable(_))
    }

    pub fn is_dyn_trait(&self) -> (b: bool)
        ensures
            b == (ct_kind(*self) is DynTrait),
    {
        matches!(self.ty_kind, TypeKind::DynTrait)
    }

    pub fn is_generic(&self) -> (b: bool)
        ensures
            b == (ct_kind(*self) is Generic),
    {
        matches!(self.ty_kind, TypeKind::Generic)
    }

    pub fn is_closure(&self) -> (b: bool)
        ensures
            b == (ct_kind(*self) == TypeKind::Callable(CallableKind::Closure)),
    {
        matches!(&self.ty_kind, TypeKind::Callable(CallableKind::Closure))
    }

    pub fn is_union_field(&self) -> (b: bool)
        ensures
            b == (ct_kind(*self) is UnionFld),
    {
        matches!(self.ty_kind, TypeKind::UnionFld)
    }

    pub fn is_mut_static(&self) -> (b: bool)
        ensures
            b == (ct_kind(*self) is StaticMut),
    {
        matches!(self.ty_kind, TypeKind::StaticMut)
    }

    pub fn is_function(&self) -> (b: bool)
        ensures
            b == (ct_kind(*self) is Function),
    {
        matches!(self.ty_kind, TypeKind::Function)
    }

    pub fn is_fn_ptr(&self) -> (b: bool)
        ensures
            b == (ct_kind(*self) == TypeKind::Callable(CallableKind::FnPtr)),
    {
        matches!(&self.ty_kind, TypeKind::Callable(CallableKind::FnPtr))
    }

    /// The callable kind, when the descriptor is a callable at all.
    pub fn get_callable_kind(&self) -> (r: Option<CallableKind>)
        ensures
            ct_kind(*self) matches TypeKind::Callable(k) ==> r == Some(k),
            !(ct_kind(*self) is Callable) ==> r is None,
    {
        if let TypeKind::Callable(kind) = &self.ty_kind {
            return Some(*kind);
        }
        None
    }
}

/// A descriptor tagged `RawPointer` answers `true` to the raw-pointer
/// predicate and `false` to every other kind predicate; each tag selects
/// exactly one predicate.
pub proof fn lemma_kind_predicates_exclusive(t: CanonicalType)
    requires
        ct_kind(t) is RawPointer,
    ensures
        !(ct_kind(t) is Callable),
        !(ct_kind(t) is DynTrait),
        !(ct_kind(t) is Generic),
        !(ct_kind(t) is UnionFld),
        !(ct_kind(t) is StaticMut),
        !(ct_kind(t) is Function),
        !(ct_kind(t) is Plain),
{
}

} // verus!
