//! Character-sequence model shared by the identifier algebra and the
//! diagnostic renderer: hyphen normalization, splitting on the `::`
//! separator, joining segments back, and decimal rendering of numbers.

use vstd::prelude::*;
use vstd::string::*;

verus! {

/// A character accepted inside an identifier: ASCII alphanumeric or `_`.
pub open spec fn is_ident_char(c: char) -> bool {
    ('a' <= c && c <= 'z') || ('A' <= c && c <= 'Z') || ('0' <= c && c <= '9') || c == '_'
}

/// Hyphens are normalized to underscores; all other characters are kept.
pub open spec fn normalize_char(c: char) -> char {
    if c == '-' {
        '_'
    } else {
        c
    }
}

/// The text with every hyphen replaced by an underscore.
pub open spec fn normalized(s: Seq<char>) -> Seq<char> {
    s.map_values(|c: char| normalize_char(c))
}

/// How many leading characters of an identifier escape validation: the
/// optional raw-identifier marker prefix.
pub open spec fn ident_skips(s: Seq<char>) -> int {
    if s.len() >= 2 && s[0] == 'r' && s[1] == '#' {
        2
    } else {
        0
    }
}

/// A valid identifier: nonempty, and every character after an optional
/// raw-identifier marker prefix is an identifier character.
pub open spec fn ident_text_ok(s: Seq<char>) -> bool {
    s.len() > 0 && (forall|i: int| ident_skips(s) <= i < s.len() ==> is_ident_char(#[trigger] s[i]))
}

/// The segments of a path text, split on each leftmost occurrence of `::`.
/// Splitting the empty text yields one empty segment, as `str::split` does.
pub open spec fn split_path(s: Seq<char>) -> Seq<Seq<char>>
    decreases s.len(),
{
    if s.len() >= 2 && s[0] == ':' && s[1] == ':' {
        seq![Seq::<char>::empty()] + split_path(s.skip(2))
    } else if s.len() == 0 {
        seq![s]
    } else {
        let rest = split_path(s.skip(1));
        seq![seq![s[0]] + rest[0]] + rest.skip(1)
    }
}

/// A valid path text: empty, or every `::`-separated segment is a valid
/// identifier.
pub open spec fn path_text_ok(s: Seq<char>) -> bool {
    s.len() == 0 || (forall|i: int|
        0 <= i < split_path(s).len() ==> ident_text_ok(#[trigger] split_path(s)[i]))
}

/// Segments joined back with the `::` separator.
pub open spec fn join_segs(ss: Seq<Seq<char>>) -> Seq<char>
    decreases ss.len(),
{
    if ss.len() == 0 {
        Seq::empty()
    } else if ss.len() == 1 {
        ss[0]
    } else {
        join_segs(ss.drop_last()) + seq![':', ':'] + ss.last()
    }
}

/// The text after appending one segment: a separator is added only when the
/// left side is nonempty.
pub open spec fn pushed(p: Seq<char>, i: Seq<char>) -> Seq<char> {
    if p.len() == 0 {
        i
    } else {
        p + seq![':', ':'] + i
    }
}

/// Index of the rightmost `::` in the text, or -1 when there is none.
pub open spec fn last_sep_idx(s: Seq<char>) -> int
    decreases s.len(),
{
    if s.len() < 2 {
        -1
    } else if s[s.len() - 2] == ':' && s[s.len() - 1] == ':' {
        s.len() - 2
    } else {
        last_sep_idx(s.drop_last())
    }
}

/// What remains of a path text after removing its trailing segment.
pub open spec fn pop_rest(s: Seq<char>) -> Seq<char> {
    if last_sep_idx(s) >= 0 {
        s.take(last_sep_idx(s))
    } else {
        Seq::empty()
    }
}

/// The trailing segment removed from a path text, or `None` when the text
/// is empty.
pub open spec fn pop_item(s: Seq<char>) -> Option<Seq<char>> {
    if s.len() == 0 {
        None
    } else if last_sep_idx(s) >= 0 {
        Some(s.skip(last_sep_idx(s) + 2))
    } else {
        Some(s)
    }
}

/// `p` is a (raw textual) prefix of `s`.
pub open spec fn text_prefix(p: Seq<char>, s: Seq<char>) -> bool {
    p.len() <= s.len() && p == s.take(p.len() as int)
}

/// The decimal digit character for a value in 0..=9.
pub open spec fn dec_digit(d: int) -> char {
    if d == 0 {
        '0'
    } else if d == 1 {
        '1'
    } else if d == 2 {
        '2'
    } else if d == 3 {
        '3'
    } else if d == 4 {
        '4'
    } else if d == 5 {
        '5'
    } else if d == 6 {
        '6'
    } else if d == 7 {
        '7'
    } else if d == 8 {
        '8'
    } else {
        '9'
    }
}

/// The decimal representation of a number, most significant digit first.
pub open spec fn dec_rep(n: nat) -> Seq<char>
    decreases n,
{
    if n < 10 {
        seq![dec_digit(n as int)]
    } else {
        dec_rep(n / 10).push(dec_digit((n % 10) as int))
    }
}

/// Splitting always yields at least one segment.
pub proof fn lemma_split_path_len(s: Seq<char>)
    ensures
        split_path(s).len() >= 1,
    decreases s.len(),
{
    if s.len() >= 2 && s[0] == ':' && s[1] == ':' {
        lemma_split_path_len(s.skip(2));
    } else if s.len() == 0 {
    } else {
        lemma_split_path_len(s.skip(1));
    }
}

/// Whether the text holds a `::` separator starting at position `i`.
pub open spec fn sep_at(s: Seq<char>, i: int) -> bool {
    0 <= i && i + 2 <= s.len() && s[i] == ':' && s[i + 1] == ':'
}

/// When the leftmost separator starts at `i`, the split is the text before
/// it followed by the split of the text after it.
pub proof fn lemma_split_path_first_sep(s: Seq<char>, i: int)
    requires
        sep_at(s, i),
        forall|j: int| 0 <= j < i ==> !sep_at(s, j),
    ensures
        split_path(s) =~= seq![s.take(i)] + split_path(s.skip(i + 2)),
    decreases i,
{
    if i == 0 {
        assert(s.take(0) =~= Seq::<char>::empty());
        assert(s.skip(2) =~= s.skip(i + 2));
    } else {
        assert(!sep_at(s, 0));
        assert(s.len() >= 2);
        let t = s.skip(1);
        assert(sep_at(t, i - 1)) by {
            assert(t[i - 1] == s[i]);
            assert(t[i] == s[i + 1]);
        }
        assert(forall|j: int| 0 <= j < i - 1 ==> !sep_at(t, j)) by {
            assert forall|j: int| 0 <= j < i - 1 implies !sep_at(t, j) by {
                assert(t[j] == s[j + 1]);
                assert(t[j + 1] == s[j + 2]);
                assert(!sep_at(s, j + 1));
            }
        }
        lemma_split_path_first_sep(t, i - 1);
        lemma_split_path_len(t.skip(i + 1));
        assert(t.skip(i + 1) =~= s.skip(i + 2));
        assert(t.take(i - 1) =~= s.skip(1).take(i - 1));
        let rest = split_path(t);
        assert(rest[0] == t.take(i - 1));
        assert(seq![s[0]] + t.take(i - 1) =~= s.take(i));
        assert(rest.skip(1) =~= split_path(s.skip(i + 2)));
    }
}

/// When the text holds no separator, it is its own single segment.
pub proof fn lemma_split_path_no_sep(s: Seq<char>)
    requires
        forall|j: int| !sep_at(s, j),
    ensures
        split_path(s) =~= seq![s],
    decreases s.len(),
{
    if s.len() >= 2 && s[0] == ':' && s[1] == ':' {
        assert(sep_at(s, 0));
    } else if s.len() == 0 {
    } else {
        let t = s.skip(1);
        assert(forall|j: int| !sep_at(t, j)) by {
            assert forall|j: int| !sep_at(t, j) by {
                if 0 <= j && j + 2 <= t.len() {
                    assert(t[j] == s[j + 1]);
                    assert(t[j + 1] == s[j + 2]);
                    assert(!sep_at(s, j + 1));
                }
            }
        }
        lemma_split_path_no_sep(t);
        assert(seq![s[0]] + t =~= s);
    }
}

/// The rightmost-separator index is either -1 with no separator anywhere,
/// or a separator position with none after it.
pub proof fn lemma_last_sep_idx(s: Seq<char>)
    ensures
        last_sep_idx(s) >= -1,
        last_sep_idx(s) == -1 ==> (forall|j: int| !sep_at(s, j)),
        last_sep_idx(s) >= 0 ==> sep_at(s, last_sep_idx(s)) && (forall|j: int|
            j > last_sep_idx(s) ==> !sep_at(s, j)),
    decreases s.len(),
{
    if s.len() < 2 {
    } else if s[s.len() - 2] == ':' && s[s.len() - 1] == ':' {
        assert(sep_at(s, s.len() - 2));
    } else {
        let t = s.drop_last();
        lemma_last_sep_idx(t);
        assert(!sep_at(s, s.len() - 2));
        if last_sep_idx(t) == -1 {
            assert forall|j: int| !sep_at(s, j) by {
                if 0 <= j && j + 2 <= s.len() {
                    if j + 2 <= t.len() {
                        assert(!sep_at(t, j));
                    }
                }
            }
        } else {
            let i = last_sep_idx(t);
            assert(sep_at(t, i));
            assert(t[i] == s[i] && t[i + 1] == s[i + 1]);
            assert(sep_at(s, i));
            assert forall|j: int| j > i implies !sep_at(s, j) by {
                if 0 <= j && j + 2 <= s.len() {
                    if j + 2 <= t.len() {
                        assert(!sep_at(t, j));
                    }
                }
            }
        }
    }
}

/// The segments of a sequence, split on every occurrence of one separator
/// element. Splitting the empty sequence yields one empty segment.
pub open spec fn split_on<T>(s: Seq<T>, sep: T) -> Seq<Seq<T>>
    decreases s.len(),
{
    if s.len() == 0 {
        seq![s]
    } else if s[0] == sep {
        seq![Seq::<T>::empty()] + split_on(s.skip(1), sep)
    } else {
        let rest = split_on(s.skip(1), sep);
        seq![seq![s[0]] + rest[0]] + rest.skip(1)
    }
}

/// Splitting always yields at least one segment.
pub proof fn lemma_split_on_len<T>(s: Seq<T>, sep: T)
    ensures
        split_on(s, sep).len() >= 1,
    decreases s.len(),
{
    if s.len() == 0 {
    } else {
        lemma_split_on_len(s.skip(1), sep);
    }
}

/// When the leftmost separator stands at `i`, the split is the part before
/// it followed by the split of the part after it.
pub proof fn lemma_split_on_first<T>(s: Seq<T>, sep: T, i: int)
    requires
        0 <= i < s.len(),
        s[i] == sep,
        forall|j: int| 0 <= j < i ==> s[j] != sep,
    ensures
        split_on(s, sep) =~= seq![s.take(i)] + split_on(s.skip(i + 1), sep),
    decreases i,
{
    if i == 0 {
        assert(s.take(0) =~= Seq::<T>::empty());
    } else {
        let t = s.skip(1);
        assert(t[i - 1] == s[i]);
        assert(forall|j: int| 0 <= j < i - 1 ==> t[j] != sep) by {
            assert forall|j: int| 0 <= j < i - 1 implies t[j] != sep by {
                assert(t[j] == s[j + 1]);
            }
        }
        lemma_split_on_first(t, sep, i - 1);
        lemma_split_on_len(t.skip(i), sep);
        assert(t.skip(i) =~= s.skip(i + 1));
        let rest = split_on(t, sep);
        assert(rest[0] == t.take(i - 1));
        assert(seq![s[0]] + t.take(i - 1) =~= s.take(i));
        assert(rest.skip(1) =~= split_on(s.skip(i + 1), sep));
    }
}

/// When the separator occurs nowhere, the whole sequence is one segment.
pub proof fn lemma_split_on_none<T>(s: Seq<T>, sep: T)
    requires
        forall|j: int| 0 <= j < s.len() ==> s[j] != sep,
    ensures
        split_on(s, sep) =~= seq![s],
    decreases s.len(),
{
    if s.len() > 0 {
        let t = s.skip(1);
        assert(forall|j: int| 0 <= j < t.len() ==> t[j] != sep) by {
            assert forall|j: int| 0 <= j < t.len() implies t[j] != sep by {
                assert(t[j] == s[j + 1]);
            }
        }
        lemma_split_on_none(t, sep);
        assert(seq![s[0]] + t =~= s);
    }
}

/// First occurrence of one character at or after the given position.
pub fn find_char(s: &str, c: char, from: usize) -> (r: Option<usize>)
    requires
        from <= s@.len(),
    ensures
        match r {
            Some(i) => from <= i < s@.len() && s@[i as int] == c && (forall|j: int|
                from <= j < i ==> s@[j] != c),
            None => forall|j: int| from <= j < s@.len() ==> s@[j] != c,
        },
{
    let n = s.unicode_len();
    let mut i = from;
    while i < n
        invariant
            from <= i,
            i <= n,
            n == s@.len(),
            forall|j: int| from <= j < i ==> s@[j] != c,
        decreases n - i,
    {
        if s.get_char(i) == c {
            return Some(i);
        }
        i += 1;
    }
    None
}

/// Joined nonempty-prefix texts grow strictly with the number of segments.
pub proof fn lemma_join_len_mono(ss: Seq<Seq<char>>, j: int, k: int)
    requires
        0 <= j < k < ss.len(),
    ensures
        join_segs(ss.take(j + 1)).len() < join_segs(ss.take(k + 1)).len(),
    decreases k,
{
    if k == j + 1 {
        assert(ss.take(k + 1).drop_last() =~= ss.take(j + 1));
        assert(ss.take(k + 1).len() == k + 1);
    } else {
        lemma_join_len_mono(ss, j, k - 1);
        assert(ss.take(k + 1).drop_last() =~= ss.take(k));
        assert(ss.take(k + 1).len() == k + 1);
    }
}

/// The views of a sequence of strings.
pub open spec fn string_views(ss: Seq<String>) -> Seq<Seq<char>> {
    ss.map_values(|t: String| t@)
}

/// A separator inside a suffix stands two positions earlier in the whole.
pub proof fn lemma_sep_skip(s: Seq<char>, p: int, j: int)
    requires
        0 <= p <= s.len(),
        0 <= j,
    ensures
        sep_at(s.skip(p), j) <==> sep_at(s, p + j),
{
    if j + 2 <= s.len() - p {
        assert(s.skip(p)[j] == s[p + j]);
        assert(s.skip(p)[j + 1] == s[p + j + 1]);
    }
}

/// Relies on `String::push`: appends exactly the given character.
#[verifier::external_body]
pub(crate) fn push_char(s: &mut String, c: char)
    ensures
        final(s)@ == old(s)@.push(c),
{
    s.push(c);
}

/// Relies on `ToString` for `usize`: returns the decimal digits of the value.
#[verifier::external_body]
pub(crate) fn usize_to_string(n: usize) -> (r: String)
    ensures
        r@ == dec_rep(n as nat),
{
    n.to_string()
}

/// Whether one character is accepted inside an identifier.
pub fn is_ident_char_exec(c: char) -> (b: bool)
    ensures
        b == is_ident_char(c),
{
    ('a' <= c && c <= 'z') || ('A' <= c && c <= 'Z') || ('0' <= c && c <= '9') || c == '_'
}

/// Whether a whole text is a valid identifier.
pub fn ident_text_check(s: &str) -> (b: bool)
    ensures
        b == ident_text_ok(s@),
{
    let n = s.unicode_len();
    if n == 0 {
        return false;
    }
    let raw = n >= 2 && s.get_char(0) == 'r' && s.get_char(1) == '#';
    let skips: usize = if raw {
        2
    } else {
        0
    };
    let mut i = skips;
    while i < n
        invariant
            skips <= i <= n,
            n == s@.len(),
            skips == ident_skips(s@),
            forall|j: int| skips <= j < i ==> is_ident_char(#[trigger] s@[j]),
        decreases n - i,
    {
        if !is_ident_char_exec(s.get_char(i)) {
            return false;
        }
        i += 1;
    }
    true
}

/// First `::` separator at or after the given position.
pub fn find_sep_from(s: &str, from: usize) -> (r: Option<usize>)
    requires
        from <= s@.len(),
    ensures
        match r {
            Some(i) => from <= i && i + 2 <= s@.len() && sep_at(s@, i as int) && (forall|j: int|
                from <= j < i ==> !sep_at(s@, j)),
            None => forall|j: int| from <= j ==> !sep_at(s@, j),
        },
{
    let n = s.unicode_len();
    if n < 2 {
        return None;
    }
    let mut i = from;
    while i < n - 1
        invariant
            from <= i,
            i <= n,
            n >= 2,
            n == s@.len(),
            forall|j: int| from <= j < i ==> !sep_at(s@, j),
        decreases n - i,
    {
        if s.get_char(i) == ':' && s.get_char(i + 1) == ':' {
            return Some(i);
        }
        i += 1;
    }
    None
}

/// Rightmost `::` separator in the text.
pub fn find_last_sep(s: &str) -> (r: Option<usize>)
    ensures
        match r {
            Some(i) => i as int == last_sep_idx(s@) && i + 2 <= s@.len(),
            None => last_sep_idx(s@) == -1,
        },
{
    let n = s.unicode_len();
    proof {
        assert(s@.take(n as int) =~= s@);
    }
    let mut i = n;
    while i >= 2
        invariant
            i <= n,
            n == s@.len(),
            last_sep_idx(s@) == last_sep_idx(s@.take(i as int)),
        decreases i,
    {
        let ghost t = s@.take(i as int);
        proof {
            assert(t[i - 2] == s@[i - 2]);
            assert(t[i - 1] == s@[i - 1]);
        }
        if s.get_char(i - 2) == ':' && s.get_char(i - 1) == ':' {
            return Some(i - 2);
        }
        proof {
            assert(t.drop_last() =~= s@.take(i - 1));
        }
        i -= 1;
    }
    None
}

/// The `::`-separated segments of the text, leftmost separator first.
pub fn path_segments(s: &str) -> (segs: Vec<String>)
    ensures
        segs@.len() == split_path(s@).len(),
        forall|k: int| 0 <= k < segs@.len() ==> (#[trigger] segs@[k])@ == split_path(s@)[k],
{
    let n = s.unicode_len();
    let mut segs: Vec<String> = Vec::new();
    let mut pos: usize = 0;
    proof {
        assert(s@.skip(0) =~= s@);
        assert(string_views(segs@) =~= Seq::<Seq<char>>::empty());
        assert(string_views(segs@) + split_path(s@) =~= split_path(s@));
    }
    loop
        invariant_except_break
            split_path(s@) =~= string_views(segs@) + split_path(s@.skip(pos as int)),
        invariant
            pos <= n,
            n == s@.len(),
        ensures
            split_path(s@) =~= string_views(segs@),
        decreases n - pos,
    {
        let ghost t = s@.skip(pos as int);
        let ghost old_segs = segs@;
        match find_sep_from(s, pos) {
            Some(i) => {
                let piece = s.substring_char(pos, i);
                segs.push(String::from_str(piece));
                proof {
                    assert(sep_at(t, i - pos)) by {
                        lemma_sep_skip(s@, pos as int, i - pos);
                    }
                    assert(forall|j: int| 0 <= j < i - pos ==> !sep_at(t, j)) by {
                        assert forall|j: int| 0 <= j < i - pos implies !sep_at(t, j) by {
                            lemma_sep_skip(s@, pos as int, j);
                        }
                    }
                    lemma_split_path_first_sep(t, i - pos);
                    assert(t.take(i - pos) =~= s@.subrange(pos as int, i as int));
                    assert(t.skip(i - pos + 2) =~= s@.skip(i + 2));
                    assert(string_views(segs@) =~= string_views(old_segs) + seq![piece@]);
                }
                pos = i + 2;
            },
            None => {
                let piece = s.substring_char(pos, n);
                segs.push(String::from_str(piece));
                proof {
                    assert(forall|j: int| !sep_at(t, j)) by {
                        assert forall|j: int| !sep_at(t, j) by {
                            if 0 <= j {
                                lemma_sep_skip(s@, pos as int, j);
                            }
                        }
                    }
                    lemma_split_path_no_sep(t);
                    assert(t =~= s@.subrange(pos as int, n as int));
                    assert(string_views(segs@) =~= string_views(old_segs) + seq![piece@]);
                }
                break ;
            },
        }
    }
    segs
}

/// Raw textual prefix test.
pub fn text_starts_with(s: &str, p: &str) -> (b: bool)
    ensures
        b == text_prefix(p@, s@),
{
    let n = s.unicode_len();
    let m = p.unicode_len();
    if m > n {
        return false;
    }
    let mut i: usize = 0;
    while i < m
        invariant
            i <= m,
            m <= n,
            n == s@.len(),
            m == p@.len(),
            forall|j: int| 0 <= j < i ==> p@[j] == s@[j],
        decreases m - i,
    {
        if s.get_char(i) != p.get_char(i) {
            proof {
                if p@ == s@.take(m as int) {
                    assert(p@[i as int] == s@.take(m as int)[i as int]);
                }
            }
            return false;
        }
        i += 1;
    }
    proof {
        assert(p@ =~= s@.take(m as int));
    }
    true
}

} // verus!
