//! Identifiers, colon-joined paths, and prefix patterns.
//!
//! An `Ident` is one name token; an `IdentPath` is a possibly empty sequence
//! of tokens joined by `::`; a `Pattern` is a path read as a prefix set (the
//! path itself plus everything nested under it). Invariant checks are soft:
//! a violation is reported but never blocks construction.

use vstd::prelude::*;
use vstd::string::*;

use crate::fresh::{fresh_filter, lemma_fresh_distinct, spec_eq_fn};
use crate::text::{
    find_last_sep, find_sep_from, ident_skips, ident_text_check, ident_text_ok, is_ident_char,
    join_segs, last_sep_idx, lemma_join_len_mono, lemma_last_sep_idx,
    lemma_split_path_first_sep, lemma_split_path_no_sep, normalize_char, normalized,
    path_segments, path_text_ok, pop_item, pop_rest, push_char, pushed, sep_at, split_path,
    text_prefix, text_starts_with,
};
use crate::warn::warn_invariant;

verus! {

/// Replaces every hyphen in the text with an underscore.
pub fn replace_hyphens(s: &mut String)
    ensures
        final (s)@ == normalized(old(s)@),
{
    let n = s.as_str().unicode_len();
    let mut out = String::new();
    let mut i: usize = 0;
    while i < n
        invariant
            i <= n,
            n == s@.len(),
            s@ == old(s)@,
            out@ == normalized(s@.take(i as int)),
        decreases n - i,
    {
        let c = s.as_str().get_char(i);
        let c2 = if c == '-' {
            '_'
        } else {
            c
        };
        push_char(&mut out, c2);
        proof {
            assert(normalized(s@.take(i + 1)) =~= normalized(s@.take(i as int)).push(
                normalize_char(s@[i as int]),
            ));
        }
        i += 1;
    }
    proof {
        assert(s@.take(n as int) =~= s@);
    }
    *s = out;
}

/// A name identifier, without colons. Should be a nonempty token of ASCII
/// alphanumeric characters and underscores, after an optional raw marker.
#[derive(Debug, Eq, Hash)]
pub struct Ident(String);

impl View for Ident {
    type V = Seq<char>;

    closed spec fn view(&self) -> Seq<char> {
        self.0@
    }
}

impl DeepView for Ident {
    type V = Seq<char>;

    open spec fn deep_view(&self) -> Seq<char> {
        self.view()
    }
}

impl Clone for Ident {
    fn clone(&self) -> (r: Self)
        ensures
            r@ == self@,
    {
        Ident(self.0.clone())
    }
}

impl PartialEq for Ident {
    fn eq(&self, other: &Self) -> (r: bool)
        ensures
            r == (self@ == other@),
    {
        self.0 == other.0
    }
}

impl vstd::std_specs::cmp::PartialEqSpecImpl for Ident {
    open spec fn obeys_eq_spec() -> bool {
        true
    }

    open spec fn eq_spec(&self, other: &Self) -> bool {
        self@ == other@
    }
}

impl Ident {
    fn str_ok(s: &str) -> (b: bool)
        ensures
            b == ident_text_ok(s@),
    {
        ident_text_check(s)
    }

    /// Whether the held text is a valid identifier.
    pub fn invariant_ok(&self) -> (b: bool)
        ensures
            b == ident_text_ok(self@),
    {
        Self::str_ok(self.0.as_str())
    }

    /// Reports a violated invariant; construction is never blocked by it.
    pub fn check_invariant(&self) {
        if !self.invariant_ok() {
            warn_invariant("Ident", self.0.as_str());
        }
    }

    /// Builds an identifier, normalizing hyphens to underscores first.
    pub fn new(s: &str) -> (r: Self)
        ensures
            r@ == normalized(s@),
    {
        Self::new_owned(String::from_str(s))
    }

    /// Builds an identifier from an owned text, normalizing hyphens first.
    pub fn new_owned(s: String) -> (r: Self)
        ensures
            r@ == normalized(s@),
    {
        let mut t = s;
        replace_hyphens(&mut t);
        let result = Ident(t);
        result.check_invariant();
        result
    }

    pub fn as_str(&self) -> (r: &str)
        ensures
            r@ == self@,
    {
        self.0.as_str()
    }
}

/// A path identifier: a possibly empty `::`-joined sequence of identifiers,
/// held as its joined text.
#[derive(Debug, Eq, Hash)]
pub struct IdentPath(String);

impl View for IdentPath {
    type V = Seq<char>;

    closed spec fn view(&self) -> Seq<char> {
        self.0@
    }
}

impl DeepView for IdentPath {
    type V = Seq<char>;

    open spec fn deep_view(&self) -> Seq<char> {
        self.view()
    }
}

impl Clone for IdentPath {
    fn clone(&self) -> (r: Self)
        ensures
            r@ == self@,
    {
        IdentPath(self.0.clone())
    }
}

impl PartialEq for IdentPath {
    fn eq(&self, other: &Self) -> (r: bool)
        ensures
            r == (self@ == other@),
    {
        self.0 == other.0
    }
}

impl vstd::std_specs::cmp::PartialEqSpecImpl for IdentPath {
    open spec fn obeys_eq_spec() -> bool {
        true
    }

    open spec fn eq_spec(&self, other: &Self) -> bool {
        self@ == other@
    }
}

/// The views of a sequence of identifiers.
pub open spec fn ident_views(s: Seq<Ident>) -> Seq<Seq<char>> {
    s.map_values(|i: Ident| i@)
}

/// The text after pushing each identifier in turn onto an empty path.
pub open spec fn fold_pushed(ids: Seq<Seq<char>>) -> Seq<char>
    decreases ids.len(),
{
    if ids.len() == 0 {
        Seq::empty()
    } else {
        pushed(fold_pushed(ids.drop_last()), ids.last())
    }
}

/// The first segment of a path text, or `None` when the text is empty.
pub open spec fn first_item(s: Seq<char>) -> Option<Seq<char>> {
    if s.len() == 0 {
        None
    } else {
        Some(split_path(s)[0])
    }
}

impl IdentPath {
    /// Whether the held text is empty or every segment is a valid identifier.
    pub fn invariant_ok(&self) -> (b: bool)
        ensures
            b == path_text_ok(self@),
    {
        if self.0.as_str().unicode_len() == 0 {
            return true;
        }
        let segs = path_segments(self.0.as_str());
        let mut k: usize = 0;
        while k < segs.len()
            invariant
                k <= segs@.len(),
                self@.len() > 0,
                segs@.len() == split_path(self@).len(),
                forall|j: int|
                    0 <= j < segs@.len() ==> (#[trigger] segs@[j])@ == split_path(self@)[j],
                forall|j: int| 0 <= j < k ==> ident_text_ok(#[trigger] split_path(self@)[j]),
            decreases segs@.len() - k,
        {
            let piece: &String = &segs[k];
            if !ident_text_check(piece.as_str()) {
                return false;
            }
            k += 1;
        }
        true
    }

    /// Reports a violated invariant; construction is never blocked by it.
    pub fn check_invariant(&self) {
        if !self.invariant_ok() {
            warn_invariant("IdentPath", self.0.as_str());
        }
    }

    /// Builds a path, normalizing hyphens to underscores first.
    pub fn new(s: &str) -> (r: Self)
        ensures
            r@ == normalized(s@),
    {
        Self::new_owned(String::from_str(s))
    }

    /// Builds a path from an owned text, normalizing hyphens first.
    pub fn new_owned(s: String) -> (r: Self)
        ensures
            r@ == normalized(s@),
    {
        let mut t = s;
        replace_hyphens(&mut t);
        let result = IdentPath(t);
        result.check_invariant();
        result
    }

    /// The empty path.
    pub fn new_empty() -> (r: Self)
        ensures
            r@ == Seq::<char>::empty(),
    {
        let r = Self::new("");
        proof {
            reveal_strlit("");
            assert(normalized(""@) =~= Seq::<char>::empty());
        }
        r
    }

    /// A one-segment path holding exactly the given identifier.
    pub fn from_ident(i: Ident) -> (r: Self)
        ensures
            r@ == i@,
    {
        let result = IdentPath(i.0);
        result.check_invariant();
        result
    }

    /// The path obtained by pushing each identifier in turn.
    pub fn from_idents(is: Vec<Ident>) -> (r: Self)
        ensures
            r@ == fold_pushed(ident_views(is@)),
    {
        let mut result = Self::new_empty();
        proof {
            assert(ident_views(is@).take(0) =~= Seq::<Seq<char>>::empty());
        }
        let mut k: usize = 0;
        while k < is.len()
            invariant
                k <= is@.len(),
                result@ == fold_pushed(ident_views(is@).take(k as int)),
            decreases is@.len() - k,
        {
            result.push_ident(&is[k]);
            proof {
                let vs = ident_views(is@);
                assert(vs.take(k + 1).drop_last() =~= vs.take(k as int));
                assert(vs.take(k + 1).last() == vs[k as int]);
            }
            k += 1;
        }
        proof {
            assert(ident_views(is@).take(is@.len() as int) =~= ident_views(is@));
        }
        result.check_invariant();
        result
    }

    pub fn is_empty(&self) -> (b: bool)
        ensures
            b == (self@.len() == 0),
    {
        self.0.as_str().is_empty()
    }

    /// Appends one identifier, separated by `::` when the path is nonempty.
    pub fn push_ident(&mut self, i: &Ident)
        ensures
            final (self)@ == pushed(old(self)@, i@),
    {
        proof {
            reveal_strlit("::");
            assert(("::")@ =~= seq![':', ':']);
        }
        if !self.is_empty() {
            self.0.append("::");
        }
        self.0.append(i.0.as_str());
        self.check_invariant();
    }

    /// Removes and returns the trailing segment; an empty path is unchanged
    /// and yields nothing.
    pub fn pop_ident(&mut self) -> (r: Option<Ident>)
        ensures
            final (self)@ == pop_rest(old(self)@),
            r is Some <==> pop_item(old(self)@) is Some,
            r matches Some(id) ==> pop_item(old(self)@) matches Some(t) && id@ == normalized(t),
    {
        let n = self.0.as_str().unicode_len();
        if n == 0 {
            return None;
        }
        let r = match find_last_sep(self.0.as_str()) {
            Some(i) => {
                let tail = Ident::new(self.0.as_str().substring_char(i + 2, n));
                let head = String::from_str(self.0.as_str().substring_char(0, i));
                proof {
                    assert(self@.subrange(0, i as int) =~= self@.take(last_sep_idx(self@)));
                    assert(self@.subrange(i + 2, n as int) =~= self@.skip(
                        last_sep_idx(self@) + 2,
                    ));
                }
                self.0 = head;
                Some(tail)
            },
            None => {
                let whole = Ident::new(self.0.as_str());
                self.0 = String::new();
                Some(whole)
            },
        };
        self.check_invariant();
        r
    }

    /// The trailing segment, without consuming it.
    pub fn last_ident(&self) -> (r: Option<Ident>)
        ensures
            r is Some <==> pop_item(self@) is Some,
            r matches Some(id) ==> pop_item(self@) matches Some(t) && id@ == normalized(t),
    {
        let n = self.0.as_str().unicode_len();
        if n == 0 {
            return None;
        }
        match find_last_sep(self.0.as_str()) {
            Some(i) => {
                proof {
                    assert(self@.subrange(i + 2, n as int) =~= self@.skip(
                        last_sep_idx(self@) + 2,
                    ));
                }
                Some(Ident::new(self.0.as_str().substring_char(i + 2, n)))
            },
            None => Some(Ident::new(self.0.as_str())),
        }
    }

    /// The leading segment, without consuming it.
    pub fn first_ident(&self) -> (r: Option<Ident>)
        ensures
            r is Some <==> first_item(self@) is Some,
            r matches Some(id) ==> first_item(self@) matches Some(t) && id@ == normalized(t),
    {
        let n = self.0.as_str().unicode_len();
        if n == 0 {
            return None;
        }
        match find_sep_from(self.0.as_str(), 0) {
            Some(i) => {
                proof {
                    lemma_split_path_first_sep(self@, i as int);
                    assert(self@.subrange(0, i as int) =~= self@.take(i as int));
                }
                Some(Ident::new(self.0.as_str().substring_char(0, i)))
            },
            None => {
                proof {
                    lemma_split_path_no_sep(self@);
                }
                Some(Ident::new(self.0.as_str()))
            },
        }
    }

    /// Concatenates another path; a separator is added only when both sides
    /// are nonempty.
    pub fn append(&mut self, other: &Self)
        ensures
            final (self)@ == if other@.len() == 0 {
                old(self)@
            } else {
                pushed(old(self)@, other@)
            },
    {
        proof {
            reveal_strlit("::");
            assert(("::")@ =~= seq![':', ':']);
        }
        if !other.is_empty() {
            if !self.is_empty() {
                self.0.append("::");
            }
            self.0.append(other.0.as_str());
            self.check_invariant();
        }
    }

    /// The segments of the path, each normalized as an identifier.
    pub fn idents(&self) -> (r: Vec<Ident>)
        ensures
            r@.len() == split_path(self@).len(),
            forall|k: int|
                0 <= k < r@.len() ==> (#[trigger] r@[k])@ == normalized(split_path(self@)[k]),
    {
        let segs = path_segments(self.0.as_str());
        let mut r: Vec<Ident> = Vec::new();
        let mut k: usize = 0;
        while k < segs.len()
            invariant
                k <= segs@.len(),
                segs@.len() == split_path(self@).len(),
                forall|j: int|
                    0 <= j < segs@.len() ==> (#[trigger] segs@[j])@ == split_path(self@)[j],
                r@.len() == k,
                forall|j: int|
                    0 <= j < k ==> (#[trigger] r@[j])@ == normalized(split_path(self@)[j]),
            decreases segs@.len() - k,
        {
            let piece: &String = &segs[k];
            r.push(Ident::new(piece.as_str()));
            k += 1;
        }
        r
    }

    /// The number of segments; the empty path splits into one empty segment.
    pub fn len(&self) -> (n: usize)
        ensures
            n == split_path(self@).len(),
    {
        path_segments(self.0.as_str()).len()
    }

    /// Every nonempty prefix of the path as a pattern, shortest first, passed
    /// through the deduplicating filter; prefixes of a nonempty path are
    /// pairwise distinct, so each is yielded exactly once.
    pub fn patterns(&self) -> (r: Vec<Pattern>)
        ensures
            self@.len() == 0 ==> r@.len() == 0,
            self@.len() > 0 ==> r@.len() == split_path(self@).len(),
            forall|k: int|
                0 <= k < r@.len() ==> (#[trigger] r@[k])@ == normalized(
                    join_segs(split_path(self@).take(k + 1)),
                ),
    {
        if self.is_empty() {
            return Vec::new();
        }
        let segs = path_segments(self.0.as_str());
        let mut acc = String::new();
        let mut pats: Vec<Pattern> = Vec::new();
        let mut k: usize = 0;
        proof {
            assert(split_path(self@).take(0) =~= Seq::<Seq<char>>::empty());
        }
        while k < segs.len()
            invariant
                k <= segs@.len(),
                self@.len() > 0,
                segs@.len() == split_path(self@).len(),
                forall|j: int|
                    0 <= j < segs@.len() ==> (#[trigger] segs@[j])@ == split_path(self@)[j],
                acc@ == join_segs(split_path(self@).take(k as int)),
                pats@.len() == k,
                forall|j: int|
                    0 <= j < k ==> (#[trigger] pats@[j])@ == normalized(
                        join_segs(split_path(self@).take(j + 1)),
                    ),
            decreases segs@.len() - k,
        {
            proof {
                reveal_strlit("::");
                assert(("::")@ =~= seq![':', ':']);
            }
            if k > 0 {
                acc.append("::");
            }
            let piece: &String = &segs[k];
            acc.append(piece.as_str());
            proof {
                let sp = split_path(self@);
                assert(sp.take(k + 1).drop_last() =~= sp.take(k as int));
                assert(sp.take(k + 1).last() == sp[k as int]);
                if k == 0 {
                    assert(join_segs(sp.take(1)) == sp.take(1)[0]);
                }
            }
            pats.push(Pattern::new(acc.as_str()));
            k += 1;
        }
        let ghost built = pats@;
        let r = fresh_filter(pats);
        proof {
            let sp = split_path(self@);
            assert(forall|j: int, k2: int|
                0 <= j < k2 < built.len() ==> !spec_eq_fn::<Pattern>()(built[j], built[k2])) by {
                assert forall|j: int, k2: int|
                    0 <= j < k2 < built.len() implies !spec_eq_fn::<Pattern>()(
                    built[j],
                    built[k2],
                ) by {
                    lemma_join_len_mono(sp, j, k2);
                    assert(built[j]@.len() == join_segs(sp.take(j + 1)).len());
                    assert(built[k2]@.len() == join_segs(sp.take(k2 + 1)).len());
                }
            }
            lemma_fresh_distinct(built, spec_eq_fn::<Pattern>());
        }
        r
    }

    /// A raw textual prefix test against the pattern, not aware of segment
    /// boundaries.
    pub fn matches(&self, pattern: &Pattern) -> (b: bool)
        ensures
            b == text_prefix(pattern@, self@),
    {
        text_starts_with(self.0.as_str(), pattern.as_str())
    }

    pub fn as_str(&self) -> (r: &str)
        ensures
            r@ == self@,
    {
        self.0.as_str()
    }
}

impl Default for IdentPath {
    fn default() -> (r: Self)
        ensures
            r@ == Seq::<char>::empty(),
    {
        Self::new_empty()
    }
}

/// A pattern over paths: a path together with an implicit trailing wildcard,
/// denoting the path itself and everything nested under it.
#[derive(Debug, Eq, Hash)]
pub struct Pattern(IdentPath);

impl View for Pattern {
    type V = Seq<char>;

    closed spec fn view(&self) -> Seq<char> {
        self.0@
    }
}

impl DeepView for Pattern {
    type V = Seq<char>;

    open spec fn deep_view(&self) -> Seq<char> {
        self.view()
    }
}

impl Clone for Pattern {
    fn clone(&self) -> (r: Self)
        ensures
            r@ == self@,
    {
        Pattern(self.0.clone())
    }
}

impl PartialEq for Pattern {
    fn eq(&self, other: &Self) -> (r: bool)
        ensures
            r == (self@ == other@),
    {
        self.0 == other.0
    }
}

impl vstd::std_specs::cmp::PartialEqSpecImpl for Pattern {
    open spec fn obeys_eq_spec() -> bool {
        true
    }

    open spec fn eq_spec(&self, other: &Self) -> bool {
        self@ == other@
    }
}

impl Pattern {
    /// Whether the wrapped path satisfies the path invariant.
    pub fn invariant_ok(&self) -> (b: bool)
        ensures
            b == path_text_ok(self@),
    {
        self.0.invariant_ok()
    }

    /// Reports a violated invariant; construction is never blocked by it.
    pub fn check_invariant(&self) {
        if !self.invariant_ok() {
            warn_invariant("Pattern", self.0.as_str());
        }
    }

    /// Builds a pattern, normalizing hyphens to underscores first.
    pub fn new(s: &str) -> (r: Self)
        ensures
            r@ == normalized(s@),
    {
        Self::from_path(IdentPath::new(s))
    }

    /// Builds a pattern from an owned text, normalizing hyphens first.
    pub fn new_owned(s: String) -> (r: Self)
        ensures
            r@ == normalized(s@),
    {
        Self::from_path(IdentPath::new_owned(s))
    }

    /// The pattern covering exactly one identifier and its descendants.
    pub fn from_ident(i: Ident) -> (r: Self)
        ensures
            r@ == i@,
    {
        Self::from_path(IdentPath::from_ident(i))
    }

    /// The leading segment of the wrapped path.
    pub fn first_ident(&self) -> (r: Option<Ident>)
        ensures
            r is Some <==> first_item(self@) is Some,
            r matches Some(id) ==> first_item(self@) matches Some(t) && id@ == normalized(t),
    {
        self.0.first_ident()
    }

    /// Wraps a path as a pattern.
    pub fn from_path(p: IdentPath) -> (r: Self)
        ensures
            r@ == p@,
    {
        let result = Pattern(p);
        result.check_invariant();
        result
    }

    pub fn as_str(&self) -> (r: &str)
        ensures
            r@ == self@,
    {
        self.0.as_str()
    }

    /// True when every path matched by `self` is matched by `other`:
    /// `other`'s text is a raw prefix of `self`'s. Agrees with
    /// `IdentPath::matches` on the wrapped path.
    pub fn subset(&self, other: &Self) -> (b: bool)
        ensures
            b == text_prefix(other@, self@),
    {
        self.0.matches(other)
    }

    /// True when every path matched by `other` is matched by `self`.
    pub fn superset(&self, other: &Self) -> (b: bool)
        ensures
            b == text_prefix(self@, other@),
    {
        other.subset(self)
    }
}

/// Hyphen normalization: two texts that agree up to hyphen placement
/// construct one and the same identifier text.
pub proof fn lemma_hyphen_normalization(a: Seq<char>, b: Seq<char>)
    requires
        a.len() == b.len(),
        forall|i: int| 0 <= i < a.len() ==> normalize_char(a[i]) == normalize_char(b[i]),
    ensures
        normalized(a) == normalized(b),
{
    assert(normalized(a) =~= normalized(b));
}

/// Pushing a valid identifier onto a path and then popping removes exactly
/// that identifier and restores the path text.
pub proof fn lemma_push_then_pop(p: Seq<char>, i: Seq<char>)
    requires
        ident_text_ok(i),
    ensures
        pop_item(pushed(p, i)) == Some(i),
        pop_rest(pushed(p, i)) == p,
{
    assert(forall|j: int| 0 <= j < i.len() ==> i[j] != ':') by {
        assert forall|j: int| 0 <= j < i.len() implies i[j] != ':' by {
            if j < ident_skips(i) {
            } else {
                assert(is_ident_char(i[j]));
            }
        }
    }
    let s = pushed(p, i);
    lemma_last_sep_idx(s);
    if p.len() == 0 {
        assert(s == i);
        assert(forall|j: int| !sep_at(s, j)) by {
            assert forall|j: int| !sep_at(s, j) by {
                if 0 <= j && j + 2 <= s.len() {
                    assert(s[j] != ':');
                }
            }
        }
        if last_sep_idx(s) >= 0 {
            assert(sep_at(s, last_sep_idx(s)));
        }
        assert(last_sep_idx(s) == -1);
        assert(pop_rest(s) =~= p);
    } else {
        assert(s.len() == p.len() + 2 + i.len());
        assert(sep_at(s, p.len() as int)) by {
            assert(s[p.len() as int] == ':');
            assert(s[p.len() as int + 1] == ':');
        }
        assert(forall|j: int| j > p.len() ==> !sep_at(s, j)) by {
            assert forall|j: int| j > p.len() implies !sep_at(s, j) by {
                if 0 <= j && j + 2 <= s.len() {
                    if j == p.len() + 1 {
                        assert(s[j + 1] == i[0]);
                        assert(i[0] != ':');
                    } else {
                        assert(s[j] == i[j - p.len() - 2]);
                        assert(i[j - p.len() - 2] != ':');
                    }
                }
            }
        }
        if last_sep_idx(s) == -1 {
            assert(!sep_at(s, p.len() as int));
            assert(false);
        }
        let idx = last_sep_idx(s);
        assert(idx >= 0);
        assert(idx <= p.len()) by {
            if idx > p.len() {
                assert(!sep_at(s, idx));
            }
        }
        assert(idx >= p.len()) by {
            if idx < p.len() {
                assert(!sep_at(s, p.len() as int));
            }
        }
        assert(s.take(idx) =~= p);
        assert(s.skip(idx + 2) =~= i);
    }
}

/// Every pattern is a subset (and hence superset) of itself.
pub proof fn lemma_pattern_reflexive(q: Seq<char>)
    ensures
        text_prefix(q, q),
{
    assert(q.take(q.len() as int) =~= q);
}

/// What makes the textual subset test sound: when one pattern's text is a
/// prefix of another's, every path the longer pattern matches is also
/// matched by the shorter one.
pub proof fn lemma_subset_sound(q: Seq<char>, p: Seq<char>, s: Seq<char>)
    requires
        text_prefix(q, p),
        text_prefix(p, s),
    ensures
        text_prefix(q, s),
{
    assert(q =~= s.take(q.len() as int)) by {
        assert(forall|i: int|
            0 <= i < q.len() ==> q[i] == p.take(q.len() as int)[i] && p[i] == s.take(
                p.len() as int,
            )[i]);
    }
}

/// The nonempty prefixes of a path are pairwise distinct, so the
/// deduplicating pass over them never drops one.
pub proof fn lemma_prefixes_distinct(s: Seq<char>, j: int, k: int)
    requires
        0 <= j < k < split_path(s).len(),
    ensures
        normalized(join_segs(split_path(s).take(j + 1))) != normalized(
            join_segs(split_path(s).take(k + 1)),
        ),
{
    lemma_join_len_mono(split_path(s), j, k);
    let a = join_segs(split_path(s).take(j + 1));
    let b = join_segs(split_path(s).take(k + 1));
    assert(normalized(a).len() == a.len());
    assert(normalized(b).len() == b.len());
}

} // verus!
