//! The computations behind the audit-trail diagnostic renderer: source line
//! byte ranges, the clamped context window, the annotation layout with its
//! declaration merge rules, the primary label text, and the call-stack
//! display lines. Reading source files and emitting the colorized output are
//! the surrounding program's part; everything that decides or computes is
//! here.

use vstd::prelude::*;
use vstd::string::*;

use crate::canonical::{cp_eq, CanonicalPath};
use crate::effect::{sub1_line, Effect, EffectInfo, EffectInstance, SrcLoc};
use crate::text::{
    dec_rep, find_char, lemma_split_on_first, lemma_split_on_len, lemma_split_on_none, split_on,
    string_views, usize_to_string,
};

verus! {

/// The renderer's configuration: context lines before and after an effect,
/// and whether to follow into effect origins across crate boundaries.
#[derive(Debug)]
pub struct Config {
    lines_before_effect: u8,
    lines_after_effect: u8,
    pub allow_effect_origin: bool,
}

/// The configured number of context lines before an effect.
pub closed spec fn cfg_before(c: Config) -> u8 {
    c.lines_before_effect
}

/// The configured number of context lines after an effect.
pub closed spec fn cfg_after(c: Config) -> u8 {
    c.lines_after_effect
}

/// Whether the renderer may follow into effect origins across crates.
pub closed spec fn cfg_allow(c: Config) -> bool {
    c.allow_effect_origin
}

impl Clone for Config {
    fn clone(&self) -> (r: Self)
        ensures
            cfg_before(r) == cfg_before(*self),
            cfg_after(r) == cfg_after(*self),
            cfg_allow(r) == cfg_allow(*self),
    {
        Config {
            lines_before_effect: self.lines_before_effect,
            lines_after_effect: self.lines_after_effect,
            allow_effect_origin: self.allow_effect_origin,
        }
    }
}

impl Default for Config {
    fn default() -> (r: Self)
        ensures
            cfg_before(r) == 4,
            cfg_after(r) == 1,
            !cfg_allow(r),
    {
        Config { lines_before_effect: 4, lines_after_effect: 1, allow_effect_origin: false }
    }
}

impl Config {
    pub fn new(lines_before: u8, lines_after: u8, allow_effect_origin: bool) -> (r: Self)
        ensures
            cfg_before(r) == lines_before,
            cfg_after(r) == lines_after,
            cfg_allow(r) == allow_effect_origin,
    {
        Self {
            lines_before_effect: lines_before,
            lines_after_effect: lines_after,
            allow_effect_origin,
        }
    }

    /// Widens both context margins by a fixed step; the driving loop's retry
    /// strategy when a render's context was judged insufficient.
    pub fn expand_context(&mut self)
        requires
            cfg_before(*old(self)) + 5 <= 255,
            cfg_after(*old(self)) + 5 <= 255,
        ensures
            cfg_before(*final (self)) == cfg_before(*old(self)) + 5,
            cfg_after(*final (self)) == cfg_after(*old(self)) + 5,
            cfg_allow(*final (self)) == cfg_allow(*old(self)),
    {
        self.lines_before_effect += 5;
        self.lines_after_effect += 5;
    }

    pub fn lines_before(&self) -> (r: u8)
        ensures
            r == cfg_before(*self),
    {
        self.lines_before_effect
    }

    pub fn lines_after(&self) -> (r: u8)
        ensures
            r == cfg_after(*self),
    {
        self.lines_after_effect
    }
}

/// The half-open byte ranges of consecutive lines, each one terminator byte
/// longer than its line, starting at the given base offset.
pub open spec fn line_ranges_from(lines: Seq<Seq<u8>>, base: int) -> Seq<(int, int)>
    decreases lines.len(),
{
    if lines.len() == 0 {
        Seq::empty()
    } else {
        seq![(base, base + lines[0].len() + 1)] + line_ranges_from(
            lines.skip(1),
            base + lines[0].len() + 1,
        )
    }
}

/// The byte range of each line of a source text, split on the newline byte.
pub open spec fn line_ranges_spec(s: Seq<u8>) -> Seq<(int, int)> {
    line_ranges_from(split_on(s, 10u8), 0)
}

/// There are as many ranges as lines.
pub proof fn lemma_line_ranges_from_len(lines: Seq<Seq<u8>>, base: int)
    ensures
        line_ranges_from(lines, base).len() == lines.len(),
    decreases lines.len(),
{
    if lines.len() > 0 {
        lemma_line_ranges_from_len(lines.skip(1), base + lines[0].len() + 1);
    }
}

/// Builds the per-line byte-range table of a source text by one forward
/// scan, accumulating line length plus one per removed line terminator.
pub fn line_byte_ranges(src: &Vec<u8>) -> (r: Vec<(usize, usize)>)
    requires
        src@.len() < usize::MAX,
    ensures
        r@.len() == line_ranges_spec(src@).len(),
        r@.len() >= 1,
        forall|k: int|
            0 <= k < r@.len() ==> (#[trigger] r@[k]).0 == line_ranges_spec(src@)[k].0 && r@[k].1
                == line_ranges_spec(src@)[k].1,
{
    let n = src.len();
    let mut r: Vec<(usize, usize)> = Vec::new();
    let mut start: usize = 0;
    let mut i: usize = 0;
    proof {
        assert(src@.skip(0) =~= src@);
        lemma_split_on_len(src@, 10u8);
    }
    while i < n
        invariant
            start <= i <= n,
            n == src@.len(),
            n < usize::MAX,
            forall|j: int| start <= j < i ==> src@[j] != 10u8,
            line_ranges_spec(src@) =~= pair_views(r@) + line_ranges_from(
                split_on(src@.skip(start as int), 10u8),
                start as int,
            ),
        decreases n - i,
    {
        if src[i] == 10u8 {
            let ghost t = src@.skip(start as int);
            let ghost old_r = r@;
            r.push((start, i + 1));
            proof {
                assert(t[i - start] == src@[i as int]);
                assert(forall|j: int| 0 <= j < i - start ==> t[j] != 10u8) by {
                    assert forall|j: int| 0 <= j < i - start implies t[j] != 10u8 by {
                        assert(t[j] == src@[j + start]);
                    }
                }
                lemma_split_on_first(t, 10u8, i - start);
                assert(t.skip(i - start + 1) =~= src@.skip(i + 1));
                let x = split_on(t, 10u8);
                assert(x[0] == t.take(i - start));
                assert(x.skip(1) =~= split_on(src@.skip(i + 1), 10u8));
                assert(x[0].len() == i - start);
                assert(line_ranges_from(x, start as int) =~= seq![(start as int, i + 1 as int)]
                    + line_ranges_from(split_on(src@.skip(i + 1), 10u8), i + 1 as int));
                assert(pair_views(r@) =~= pair_views(old_r) + seq![
                    (start as int, i + 1 as int),
                ]);
                assert(line_ranges_spec(src@) =~= pair_views(r@) + line_ranges_from(
                    split_on(src@.skip(i + 1), 10u8),
                    i + 1 as int,
                ));
            }
            start = i + 1;
        }
        i += 1;
    }
    let ghost t = src@.skip(start as int);
    let ghost old_r = r@;
    r.push((start, n + 1));
    proof {
        assert(forall|j: int| 0 <= j < t.len() ==> t[j] != 10u8) by {
            assert forall|j: int| 0 <= j < t.len() implies t[j] != 10u8 by {
                assert(t[j] == src@[j + start]);
            }
        }
        lemma_split_on_none(t, 10u8);
        assert(pair_views(r@) =~= pair_views(old_r) + seq![(start as int, n + 1 as int)]);
        assert(t.len() == n - start);
        let x = split_on(t, 10u8);
        assert(x =~= seq![t]);
        assert(x[0] == t);
        assert(x.skip(1) =~= Seq::<Seq<u8>>::empty());
        assert(line_ranges_from(x.skip(1), start + t.len() + 1) =~= Seq::<(int, int)>::empty());
        assert(line_ranges_from(x, start as int) =~= seq![(start as int, n + 1 as int)]);
        lemma_line_ranges_from_len(split_on(src@, 10u8), 0);
        lemma_split_on_len(src@, 10u8);
    }
    r
}

/// The integer values of a vector of byte-range pairs.
pub open spec fn pair_views(ps: Seq<(usize, usize)>) -> Seq<(int, int)> {
    ps.map_values(|p: (usize, usize)| (p.0 as int, p.1 as int))
}

/// The first line of the context window: the effect's first line moved up
/// by the configured margin, clamped at the first line of the file.
pub open spec fn window_lo(start: usize, before: u8) -> usize {
    if start >= before {
        (start - before) as usize
    } else {
        0
    }
}

/// The last line of the context window: the effect's last line moved down
/// by the configured margin, clamped at the last line of the file.
pub open spec fn window_hi(end: usize, num_lines: usize, after: u8) -> usize {
    if end + after < num_lines {
        (end + after) as usize
    } else {
        (num_lines - 1) as usize
    }
}

/// The 0-indexed first and last line of the context window around an
/// effect, expanded by the configured margins and clamped to the file.
pub fn context_window(start_line: usize, end_line: usize, num_lines: usize, config: &Config) -> (w:
    (usize, usize))
    requires
        num_lines >= 1,
    ensures
        w.0 == window_lo(start_line, cfg_before(*config)),
        w.1 == window_hi(end_line, num_lines, cfg_after(*config)),
{
    let before = config.lines_before() as usize;
    let after = config.lines_after() as usize;
    let lo = if start_line >= before {
        start_line - before
    } else {
        0
    };
    let cap = num_lines - 1;
    let hi = if end_line <= cap && after <= cap - end_line {
        end_line + after
    } else {
        cap
    };
    (lo, hi)
}

/// A failed range lookup: a recorded location no longer matches the file.
#[derive(Debug, Clone, Copy, PartialEq, Eq, Structural)]
pub enum RenderError {
    LineOutOfRange,
}

/// The annotation layout of one rendered diagnostic: a primary byte range
/// for the effect itself, and the secondary ranges around it.
#[derive(Debug, Clone, Copy, PartialEq, Eq)]
pub enum LabelPlan {
    /// The enclosing declaration lies entirely before the window: it gets a
    /// secondary annotation of its own.
    SeparateDecl { effect: (usize, usize), decl: (usize, usize), window: (usize, usize) },
    /// Only the declaration's start lies before the window: the window is
    /// extended back to it.
    MergedWindow { effect: (usize, usize), window: (usize, usize) },
    /// The declaration is inside the window, or unknown.
    Window { effect: (usize, usize), window: (usize, usize) },
}

/// The annotation layout for an effect at lines `es..=ee`, a context window
/// `w`, and an optionally known enclosing declaration, over the given line
/// ranges; a line with no entry in the table is a stale-location failure.
pub open spec fn label_plan_spec(
    ranges: Seq<(int, int)>,
    es: usize,
    ee: usize,
    w: (usize, usize),
    decl: Option<(usize, usize)>,
) -> Result<LabelPlan, RenderError> {
    if !(es < ranges.len() && ee < ranges.len() && w.0 < ranges.len() && w.1 < ranges.len()) {
        Err(RenderError::LineOutOfRange)
    } else {
        let effect = ((ranges[es as int].0 as usize, ranges[ee as int].1 as usize));
        let window = ((ranges[w.0 as int].0 as usize, ranges[w.1 as int].1 as usize));
        match decl {
            Some(d) => {
                if d.0 < w.0 && d.1 < w.0 {
                    Ok(
                        LabelPlan::SeparateDecl {
                            effect,
                            decl: (
                                (
                                    ranges[d.0 as int].0 as usize,
                                    ranges[d.1 as int].1 as usize,
                                )
                            ),
                            window,
                        },
                    )
                } else if d.0 < w.0 {
                    Ok(
                        LabelPlan::MergedWindow {
                            effect,
                            window: ((ranges[d.0 as int].0 as usize, window.1)),
                        },
                    )
                } else {
                    Ok(LabelPlan::Window { effect, window })
                }
            },
            None => Ok(LabelPlan::Window { effect, window }),
        }
    }
}

/// Chooses the annotation layout, merging or separating the enclosing
/// declaration's range by where it stands relative to the window.
pub fn plan_labels(
    ranges: &Vec<(usize, usize)>,
    effect_start: usize,
    effect_end: usize,
    w: (usize, usize),
    decl: Option<(usize, usize)>,
) -> (r: Result<LabelPlan, RenderError>)
    ensures
        r == label_plan_spec(pair_views(ranges@), effect_start, effect_end, w, decl),
{
    let n = ranges.len();
    if !(effect_start < n && effect_end < n && w.0 < n && w.1 < n) {
        return Err(RenderError::LineOutOfRange);
    }
    let effect = (ranges[effect_start].0, ranges[effect_end].1);
    let window = (ranges[w.0].0, ranges[w.1].1);
    match decl {
        Some(d) => {
            if d.0 < w.0 && d.1 < w.0 {
                Ok(
                    LabelPlan::SeparateDecl {
                        effect,
                        decl: (ranges[d.0].0, ranges[d.1].1),
                        window,
                    },
                )
            } else if d.0 < w.0 {
                Ok(LabelPlan::MergedWindow { effect, window: (ranges[d.0].0, window.1) })
            } else {
                Ok(LabelPlan::Window { effect, window })
            }
        },
        None => Ok(LabelPlan::Window { effect, window }),
    }
}

/// The kind-specific primary label shown at the audit origin's own frame.
pub open spec fn effect_label(e: Effect) -> Seq<char> {
    match e {
        Effect::SinkCall(s) => "sink call: "@ + s@,
        Effect::FFICall(s) => "ffi call: "@ + s@,
        Effect::UnsafeCall(s) => "unsafe call: "@ + s@,
        Effect::RawPointer(s) => "raw pointer access: "@ + s@,
        Effect::UnionField(s) => "union access: "@ + s@,
        Effect::StaticMut(s) => "static mut access: "@ + s@,
        Effect::StaticExt(s) => "static ffi variable access: "@ + s@,
        Effect::FnPtrCreation => "function pointer creation (verify the function is always safe to call)"@,
        Effect::ClosureCreation => "closure creation (verify the closure is always safe to call)"@,
        Effect::RawPtrCast => "Cast to a raw pointer (can't cause unsafe behavior on its own)"@,
    }
}

/// The primary label: kind-specific at the origin's own caller, a fixed
/// caller-checked note at every other frame.
pub open spec fn label_text(origin: EffectInstance, caller: CanonicalPath) -> Seq<char> {
    if cp_eq(origin.caller, caller) {
        effect_label(origin.eff_type)
    } else {
        "call safety marked as caller-checked"@
    }
}

fn concat_label(prefix: &str, name: &String) -> (r: String)
    ensures
        r@ == prefix@ + name@,
{
    let mut s = String::from_str(prefix);
    s.append(name.as_str());
    s
}

/// Renders the primary label for one frame of an audit trail.
pub fn label_message(origin: &EffectInstance, caller: &CanonicalPath) -> (r: String)
    ensures
        r@ == label_text(*origin, *caller),
{
    if origin.caller == *caller {
        match &origin.eff_type {
            Effect::SinkCall(s) => concat_label("sink call: ", s),
            Effect::FFICall(s) => concat_label("ffi call: ", s),
            Effect::UnsafeCall(s) => concat_label("unsafe call: ", s),
            Effect::RawPointer(s) => concat_label("raw pointer access: ", s),
            Effect::UnionField(s) => concat_label("union access: ", s),
            Effect::StaticMut(s) => concat_label("static mut access: ", s),
            Effect::StaticExt(s) => concat_label("static ffi variable access: ", s),
            Effect::FnPtrCreation => String::from_str(
                "function pointer creation (verify the function is always safe to call)",
            ),
            Effect::ClosureCreation => String::from_str(
                "closure creation (verify the closure is always safe to call)",
            ),
            Effect::RawPtrCast => String::from_str(
                "Cast to a raw pointer (can't cause unsafe behavior on its own)",
            ),
        }
    } else {
        String::from_str("call safety marked as caller-checked")
    }
}

/// One rendered diagnostic: the annotation layout and the primary label.
#[derive(Debug)]
pub struct RenderPlan {
    pub labels: LabelPlan,
    pub message: String,
}

/// Computes everything one diagnostic needs from the source bytes: line
/// ranges, the clamped window, the annotation layout, and the label.
/// Reading the file and emitting the diagnostic stay with the caller.
pub fn effect_src_plan(
    src: &Vec<u8>,
    origin: &EffectInstance,
    effect: &EffectInfo,
    decl_loc: Option<&SrcLoc>,
    config: &Config,
) -> (r: Result<RenderPlan, RenderError>)
    requires
        src@.len() < usize::MAX,
    ensures
        ({
            let es = sub1_line(effect.callee_loc.start_line);
            let ee = sub1_line(effect.callee_loc.end_line);
            let ranges = line_ranges_spec(src@);
            let w = (
                (
                    window_lo(es, cfg_before(*config)),
                    window_hi(ee, ranges.len() as usize, cfg_after(*config)),
                )
            );
            let d = match decl_loc {
                Some(l) => Some((sub1_line(l.start_line), sub1_line(l.end_line))),
                None => None::<(usize, usize)>,
            };
            let plan = label_plan_spec(ranges, es, ee, w, d);
            &&& (r is Ok <==> plan is Ok)
            &&& (r matches Ok(p) ==> plan matches Ok(lp) && p.labels == lp && p.message@
                == label_text(*origin, effect.caller_path))
            &&& (r matches Err(e) ==> plan matches Err(e2) && e == e2)
        }),
{
    let loc0 = effect.callee_loc.sub1();
    let ranges = line_byte_ranges(src);
    proof {
        lemma_split_on_len(src@, 10u8);
        lemma_line_ranges_from_len(split_on(src@, 10u8), 0);
        assert(pair_views(ranges@) =~= line_ranges_spec(src@));
    }
    let w = context_window(loc0.start_line, loc0.end_line, ranges.len(), config);
    let d: Option<(usize, usize)> = match decl_loc {
        Some(l) => {
            let l0 = l.sub1();
            Some((l0.start_line, l0.end_line))
        },
        None => None,
    };
    match plan_labels(&ranges, loc0.start_line, loc0.end_line, w, d) {
        Ok(lp) => {
            let message = label_message(origin, &effect.caller_path);
            Ok(RenderPlan { labels: lp, message })
        },
        Err(e) => Err(e),
    }
}

/// One character of ASCII whitespace.
pub open spec fn is_ws(c: char) -> bool {
    c == ' ' || c == '\t' || c == '\r' || c == '\n'
}

/// The text with its leading whitespace removed.
pub open spec fn trim_start_spec(s: Seq<char>) -> Seq<char>
    decreases s.len(),
{
    if s.len() > 0 && is_ws(s[0]) {
        trim_start_spec(s.skip(1))
    } else {
        s
    }
}

/// The text with its trailing whitespace removed.
pub open spec fn trim_end_spec(s: Seq<char>) -> Seq<char>
    decreases s.len(),
{
    if s.len() > 0 && is_ws(s[s.len() - 1]) {
        trim_end_spec(s.drop_last())
    } else {
        s
    }
}

/// The text with whitespace removed on both sides.
pub open spec fn trimmed(s: Seq<char>) -> Seq<char> {
    trim_end_spec(trim_start_spec(s))
}

/// The approximate signature shown for a declaration line: the text before
/// its first opening brace, trimmed of surrounding whitespace.
pub open spec fn sig_of_line(line: Seq<char>) -> Seq<char> {
    trimmed(split_on(line, '{')[0])
}

proof fn lemma_trim_start(s: Seq<char>, a: int)
    requires
        0 <= a <= s.len(),
        forall|j: int| 0 <= j < a ==> is_ws(#[trigger] s[j]),
        a < s.len() ==> !is_ws(s[a]),
    ensures
        trim_start_spec(s) =~= s.skip(a),
    decreases a,
{
    if a == 0 {
        assert(s.skip(0) =~= s);
    } else {
        let t = s.skip(1);
        assert(forall|j: int| 0 <= j < a - 1 ==> is_ws(#[trigger] t[j])) by {
            assert forall|j: int| 0 <= j < a - 1 implies is_ws(#[trigger] t[j]) by {
                assert(t[j] == s[j + 1]);
            }
        }
        assert(a - 1 < t.len() ==> !is_ws(t[a - 1]));
        lemma_trim_start(t, a - 1);
        assert(t.skip(a - 1) =~= s.skip(a));
    }
}

proof fn lemma_trim_end(s: Seq<char>, b: int)
    requires
        0 <= b <= s.len(),
        forall|j: int| b <= j < s.len() ==> is_ws(#[trigger] s[j]),
        b > 0 ==> !is_ws(s[b - 1]),
    ensures
        trim_end_spec(s) =~= s.take(b),
    decreases s.len(),
{
    if b == s.len() {
        if s.len() > 0 {
            assert(!is_ws(s[s.len() - 1]));
        }
        assert(s.take(b) =~= s);
    } else {
        assert(is_ws(s[s.len() - 1]));
        let t = s.drop_last();
        assert(forall|j: int| b <= j < t.len() ==> is_ws(#[trigger] t[j])) by {
            assert forall|j: int| b <= j < t.len() implies is_ws(#[trigger] t[j]) by {
                assert(t[j] == s[j]);
            }
        }
        lemma_trim_end(t, b);
        assert(t.take(b) =~= s.take(b));
    }
}

fn is_ws_exec(c: char) -> (b: bool)
    ensures
        b == is_ws(c),
{
    c == ' ' || c == '\t' || c == '\r' || c == '\n'
}

fn trim_str<'a>(s: &'a str) -> (r: &'a str)
    ensures
        r@ == trimmed(s@),
{
    let m = s.unicode_len();
    let mut a: usize = 0;
    while a < m && is_ws_exec(s.get_char(a))
        invariant
            a <= m,
            m == s@.len(),
            forall|j: int| 0 <= j < a ==> is_ws(#[trigger] s@[j]),
        decreases m - a,
    {
        a += 1;
    }
    let mut b: usize = m;
    while b > a && is_ws_exec(s.get_char(b - 1))
        invariant
            a <= b <= m,
            m == s@.len(),
            forall|j: int| b <= j < m ==> is_ws(#[trigger] s@[j]),
        decreases b,
    {
        b -= 1;
    }
    proof {
        lemma_trim_start(s@, a as int);
        let t = s@.skip(a as int);
        assert(forall|j: int| b - a <= j < t.len() ==> is_ws(#[trigger] t[j])) by {
            assert forall|j: int| b - a <= j < t.len() implies is_ws(#[trigger] t[j]) by {
                assert(t[j] == s@[j + a]);
            }
        }
        if b > a {
            assert(t[b - a - 1] == s@[b - 1]);
        }
        lemma_trim_end(t, b - a);
        assert(t.take(b - a) =~= s@.subrange(a as int, b as int));
    }
    s.substring_char(a, b)
}

/// The text of the given 0-indexed line of a source text, or a
/// stale-location failure when the file has fewer lines.
fn nth_line<'a>(s: &'a str, k: usize) -> (r: Result<&'a str, RenderError>)
    ensures
        k < split_on(s@, '\n').len() ==> (r matches Ok(t) && t@ == split_on(s@, '\n')[k as int]),
        k >= split_on(s@, '\n').len() ==> r == Err::<&'a str, RenderError>(
            RenderError::LineOutOfRange,
        ),
{
    let n = s.unicode_len();
    let mut cur: usize = 0;
    let mut startp: usize = 0;
    proof {
        assert(s@.skip(0) =~= s@);
        assert(split_on(s@, '\n').skip(0) =~= split_on(s@, '\n'));
    }
    while cur < k
        invariant
            cur <= k,
            startp <= n,
            n == s@.len(),
            split_on(s@, '\n').skip(cur as int) =~= split_on(s@.skip(startp as int), '\n'),
            split_on(s@, '\n').len() == cur + split_on(s@.skip(startp as int), '\n').len(),
        decreases k - cur,
    {
        let ghost t = s@.skip(startp as int);
        match find_char(s, '\n', startp) {
            Some(i) => {
                proof {
                    assert(t[i - startp] == s@[i as int]);
                    assert(forall|j: int| 0 <= j < i - startp ==> t[j] != '\n') by {
                        assert forall|j: int| 0 <= j < i - startp implies t[j] != '\n' by {
                            assert(t[j] == s@[j + startp]);
                        }
                    }
                    lemma_split_on_first(t, '\n', i - startp);
                    assert(t.skip(i - startp + 1) =~= s@.skip(i + 1));
                    assert(split_on(t, '\n').skip(1) =~= split_on(s@.skip(i + 1), '\n'));
                    assert(split_on(s@, '\n').skip(cur + 1) =~= split_on(
                        s@.skip(i + 1),
                        '\n',
                    ));
                }
                startp = i + 1;
                cur += 1;
            },
            None => {
                proof {
                    assert(forall|j: int| 0 <= j < t.len() ==> t[j] != '\n') by {
                        assert forall|j: int| 0 <= j < t.len() implies t[j] != '\n' by {
                            assert(t[j] == s@[j + startp]);
                        }
                    }
                    lemma_split_on_none(t, '\n');
                }
                return Err(RenderError::LineOutOfRange);
            },
        }
    }
    let ghost t = s@.skip(startp as int);
    let ghost lines = split_on(s@, '\n');
    proof {
        lemma_split_on_len(t, '\n');
        assert(lines[k as int] == lines.skip(k as int)[0]);
    }
    let endp = match find_char(s, '\n', startp) {
        Some(i) => {
            proof {
                assert(t[i - startp] == s@[i as int]);
                assert(forall|j: int| 0 <= j < i - startp ==> t[j] != '\n') by {
                    assert forall|j: int| 0 <= j < i - startp implies t[j] != '\n' by {
                        assert(t[j] == s@[j + startp]);
                    }
                }
                lemma_split_on_first(t, '\n', i - startp);
                assert(split_on(t, '\n')[0] == t.take(i - startp));
                assert(t.take(i - startp) =~= s@.subrange(startp as int, i as int));
            }
            i
        },
        None => {
            proof {
                assert(forall|j: int| 0 <= j < t.len() ==> t[j] != '\n') by {
                    assert forall|j: int| 0 <= j < t.len() implies t[j] != '\n' by {
                        assert(t[j] == s@[j + startp]);
                    }
                }
                lemma_split_on_none(t, '\n');
                assert(split_on(t, '\n')[0] == t);
                assert(t =~= s@.subrange(startp as int, n as int));
            }
            n
        },
    };
    Ok(s.substring_char(startp, endp))
}

/// The approximate declaration signature at a 1-indexed source line: the
/// line's text before its first opening brace, trimmed. A line number past
/// the end of the file is a stale-location failure.
pub fn decl_signature(src: &str, start_line: usize) -> (r: Result<String, RenderError>)
    requires
        start_line >= 1,
    ensures
        start_line - 1 < split_on(src@, '\n').len() ==> (r matches Ok(t) && t@ == sig_of_line(
            split_on(src@, '\n')[start_line - 1],
        )),
        start_line - 1 >= split_on(src@, '\n').len() ==> r == Err::<String, RenderError>(
            RenderError::LineOutOfRange,
        ),
{
    let line = match nth_line(src, start_line - 1) {
        Ok(l) => l,
        Err(e) => {
            return Err(e);
        },
    };
    let m = line.unicode_len();
    let b = match find_char(line, '{', 0) {
        Some(i) => {
            proof {
                lemma_split_on_first(line@, '{', i as int);
                assert(split_on(line@, '{')[0] == line@.take(i as int));
                assert(line@.take(i as int) =~= line@.subrange(0, i as int));
            }
            i
        },
        None => {
            proof {
                lemma_split_on_none(line@, '{');
                assert(split_on(line@, '{')[0] == line@);
                assert(line@ =~= line@.subrange(0, m as int));
            }
            m
        },
    };
    let piece = line.substring_char(0, b);
    Ok(String::from_str(trim_str(piece)))
}

/// One display entry of a reconstructed call stack.
#[derive(Debug)]
pub struct CallStackInfo {
    pub fn_string: Option<String>,
    pub filename: String,
    pub lineno: usize,
}

impl CallStackInfo {
    pub fn new(fn_string: Option<String>, filename: String, lineno: usize) -> (r: Self)
        ensures
            r.fn_string == fn_string,
            r.filename == filename,
            r.lineno == lineno,
    {
        Self { fn_string, filename, lineno }
    }
}

/// A directory and a file name joined into one displayed path.
pub open spec fn joined_path(d: Seq<char>, f: Seq<char>) -> Seq<char> {
    if d.len() == 0 {
        f
    } else {
        d + "/"@ + f
    }
}

fn join_loc_path(loc: &SrcLoc) -> (r: String)
    ensures
        r@ == joined_path(loc.dir@, loc.file@),
{
    if loc.dir.as_str().is_empty() {
        loc.file.clone()
    } else {
        let mut s = loc.dir.clone();
        s.append("/");
        s.append(loc.file.as_str());
        s
    }
}

/// The display entry for a frame whose declaration location is known: the
/// signature read from the declaration's first source line.
pub fn fn_decl_info(src: &str, fn_loc: &SrcLoc) -> (r: Result<CallStackInfo, RenderError>)
    requires
        fn_loc.start_line >= 1,
    ensures
        fn_loc.start_line - 1 < split_on(src@, '\n').len() ==> (r matches Ok(info)
            && info.fn_string matches Some(f) && f@ == sig_of_line(
            split_on(src@, '\n')[fn_loc.start_line - 1],
        ) && info.filename@ == joined_path(fn_loc.dir@, fn_loc.file@) && info.lineno
            == fn_loc.start_line),
        fn_loc.start_line - 1 >= split_on(src@, '\n').len() ==> r == Err::<
            CallStackInfo,
            RenderError,
        >(RenderError::LineOutOfRange),
{
    match decl_signature(src, fn_loc.start_line) {
        Ok(sig) => Ok(CallStackInfo::new(Some(sig), join_loc_path(fn_loc), fn_loc.start_line)),
        Err(e) => Err(e),
    }
}

/// The fallback display entry when no declaration is known: the effect's
/// own call-site path and line, with no signature.
pub fn missing_fn_decl_info(effect_loc: &SrcLoc) -> (r: CallStackInfo)
    ensures
        r.fn_string is None,
        r.filename@ == joined_path(effect_loc.dir@, effect_loc.file@),
        r.lineno == effect_loc.start_line,
{
    CallStackInfo::new(None, join_loc_path(effect_loc), effect_loc.start_line)
}

/// The two display lines of one call-stack entry: the location with a
/// 1-adjusted line number, then the indented signature or a fixed
/// missing-declaration sentinel.
pub open spec fn info_lines(e: CallStackInfo) -> Seq<Seq<char>> {
    seq![
        e.filename@ + ":"@ + dec_rep((e.lineno + 1) as nat),
        "    "@ + (match e.fn_string {
            Some(f) => f@,
            None => "Missing fn decl"@,
        }),
    ]
}

/// The display lines of a whole stack, one entry after the next.
pub open spec fn stack_lines(es: Seq<CallStackInfo>) -> Seq<Seq<char>>
    decreases es.len(),
{
    if es.len() == 0 {
        Seq::empty()
    } else {
        stack_lines(es.drop_last()) + info_lines(es.last())
    }
}

/// Renders each entry as its two display lines, in order.
pub fn call_stack_lines(stack: &Vec<CallStackInfo>) -> (r: Vec<String>)
    requires
        forall|k: int| 0 <= k < stack@.len() ==> (#[trigger] stack@[k]).lineno < usize::MAX,
    ensures
        string_views(r@) == stack_lines(stack@),
{
    let mut r: Vec<String> = Vec::new();
    proof {
        assert(stack@.take(0) =~= Seq::<CallStackInfo>::empty());
        assert(string_views(r@) =~= stack_lines(stack@.take(0)));
    }
    let mut idx: usize = 0;
    while idx < stack.len()
        invariant
            idx <= stack@.len(),
            forall|k: int| 0 <= k < stack@.len() ==> (#[trigger] stack@[k]).lineno < usize::MAX,
            string_views(r@) == stack_lines(stack@.take(idx as int)),
        decreases stack@.len() - idx,
    {
        let e: &CallStackInfo = &stack[idx];
        let mut l1 = e.filename.clone();
        l1.append(":");
        let num = usize_to_string(e.lineno + 1);
        l1.append(num.as_str());
        let mut l2 = String::from_str("    ");
        match &e.fn_string {
            Some(f) => l2.append(f.as_str()),
            None => l2.append("Missing fn decl"),
        }
        let ghost old_r = r@;
        r.push(l1);
        r.push(l2);
        proof {
            assert(stack@.take(idx + 1).drop_last() =~= stack@.take(idx as int));
            assert(stack@.take(idx + 1).last() == stack@[idx as int]);
            assert(string_views(r@) =~= string_views(old_r) + info_lines(stack@[idx as int]));
            assert(string_views(r@) =~= stack_lines(stack@.take(idx + 1)));
        }
        idx += 1;
    }
    proof {
        assert(stack@.take(stack@.len() as int) =~= stack@);
    }
    r
}

/// The full call-stack report: no header and no lines at all when the frame
/// history is empty, else one header line followed by the current frame's
/// entry and the history's entries nearest caller first.
pub fn call_stack_report(curr: CallStackInfo, history: Vec<CallStackInfo>) -> (r: Vec<String>)
    requires
        curr.lineno < usize::MAX,
        forall|k: int| 0 <= k < history@.len() ==> (#[trigger] history@[k]).lineno < usize::MAX,
    ensures
        history@.len() == 0 ==> r@.len() == 0,
        history@.len() > 0 ==> string_views(r@) == seq!["EffectInstance call stack:"@]
            + stack_lines(seq![curr] + history@.reverse()),
{
    if history.len() == 0 {
        return Vec::new();
    }
    let ghost orig = history@;
    let mut entries: Vec<CallStackInfo> = Vec::new();
    entries.push(curr);
    let mut hist = history;
    proof {
        assert(orig.skip(orig.len() as int).reverse() =~= Seq::<CallStackInfo>::empty());
        assert(entries@ =~= seq![curr] + orig.skip(orig.len() as int).reverse());
        assert(hist@ =~= orig.take(orig.len() as int));
    }
    while hist.len() > 0
        invariant
            hist@ == orig.take(hist@.len() as int),
            hist@.len() <= orig.len(),
            entries@ == seq![curr] + orig.skip(hist@.len() as int).reverse(),
            curr.lineno < usize::MAX,
            forall|k: int| 0 <= k < orig.len() ==> (#[trigger] orig[k]).lineno < usize::MAX,
        decreases hist@.len(),
    {
        let ghost m = hist@.len() as int;
        let e = match hist.pop() {
            Some(e) => e,
            None => {
                proof {
                    assert(false);
                }
                CallStackInfo::new(None, String::new(), 0)
            },
        };
        entries.push(e);
        proof {
            assert(e == orig.take(m).last());
            assert(orig.take(m).last() == orig[m - 1]);
            assert(hist@ =~= orig.take(m - 1));
            assert(orig.skip(m - 1).reverse() =~= orig.skip(m).reverse().push(orig[m - 1]));
            assert(entries@ =~= seq![curr] + orig.skip(m - 1).reverse());
        }
    }
    proof {
        assert(orig.skip(0).reverse() =~= orig.reverse());
        assert(entries@ =~= seq![curr] + orig.reverse());
        assert(forall|k: int|
            0 <= k < entries@.len() ==> (#[trigger] entries@[k]).lineno < usize::MAX) by {
            assert forall|k: int|
                0 <= k < entries@.len() implies (#[trigger] entries@[k]).lineno
                < usize::MAX by {
                if k > 0 {
                    assert(entries@[k] == orig.reverse()[k - 1]);
                    assert(orig.reverse()[k - 1] == orig[orig.len() - k]);
                }
            }
        }
    }
    let lines = call_stack_lines(&entries);
    let mut out: Vec<String> = Vec::new();
    out.push(String::from_str("EffectInstance call stack:"));
    let mut rest = lines;
    out.append(&mut rest);
    proof {
        assert(string_views(out@) =~= seq!["EffectInstance call stack:"@] + stack_lines(
            entries@,
        ));
    }
    out
}

} // verus!
