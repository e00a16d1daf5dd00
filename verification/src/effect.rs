//! Records consumed from the effect-extraction collaborator: source
//! locations, classified effects, and the per-effect frame records that the
//! diagnostic renderer and the call-stack reconstruction walk.

use vstd::prelude::*;
use vstd::string::*;

use crate::canonical::CanonicalPath;

verus! {

/// A source location: directory, file name, and a 1-indexed line range.
#[derive(Debug, Eq, Hash)]
pub struct SrcLoc {
    pub dir: String,
    pub file: String,
    pub start_line: usize,
    pub end_line: usize,
}

/// Spec-level equality of two locations, over the texts and the lines.
pub open spec fn loc_eq(a: SrcLoc, b: SrcLoc) -> bool {
    a.dir@ == b.dir@ && a.file@ == b.file@ && a.start_line == b.start_line && a.end_line
        == b.end_line
}

/// The location that stands for "no location attached".
pub open spec fn loc_is_empty(l: SrcLoc) -> bool {
    l.dir@.len() == 0 && l.file@.len() == 0 && l.start_line == 0 && l.end_line == 0
}

/// A 1-indexed line number converted to 0-indexed, clamped at zero.
pub open spec fn sub1_line(l: usize) -> usize {
    if l == 0 {
        0
    } else {
        (l - 1) as usize
    }
}

impl Clone for SrcLoc {
    fn clone(&self) -> (r: Self)
        ensures
            loc_eq(r, *self),
    {
        SrcLoc {
            dir: self.dir.clone(),
            file: self.file.clone(),
            start_line: self.start_line,
            end_line: self.end_line,
        }
    }
}

impl PartialEq for SrcLoc {
    fn eq(&self, other: &Self) -> (r: bool)
        ensures
            r == loc_eq(*self, *other),
    {
        self.dir == other.dir && self.file == other.file && self.start_line == other.start_line
            && self.end_line == other.end_line
    }
}

impl vstd::std_specs::cmp::PartialEqSpecImpl for SrcLoc {
    open spec fn obeys_eq_spec() -> bool {
        true
    }

    open spec fn eq_spec(&self, other: &Self) -> bool {
        loc_eq(*self, *other)
    }
}

impl Default for SrcLoc {
    fn default() -> (r: Self)
        ensures
            loc_is_empty(r),
    {
        SrcLoc { dir: String::new(), file: String::new(), start_line: 0, end_line: 0 }
    }
}

impl SrcLoc {
    pub fn new(dir: String, file: String, start_line: usize, end_line: usize) -> (r: Self)
        ensures
            r.dir == dir,
            r.file == file,
            r.start_line == start_line,
            r.end_line == end_line,
    {
        SrcLoc { dir, file, start_line, end_line }
    }

    /// The location with both line numbers converted to 0-indexed form.
    pub fn sub1(&self) -> (r: Self)
        ensures
            r.dir@ == self.dir@,
            r.file@ == self.file@,
            r.start_line == sub1_line(self.start_line),
            r.end_line == sub1_line(self.end_line),
    {
        SrcLoc {
            dir: self.dir.clone(),
            file: self.file.clone(),
            start_line: if self.start_line == 0 {
                0
            } else {
                self.start_line - 1
            },
            end_line: if self.end_line == 0 {
                0
            } else {
                self.end_line - 1
            },
        }
    }

    pub fn dir(&self) -> (r: &String)
        ensures
            r == &self.dir,
    {
        &self.dir
    }

    pub fn file(&self) -> (r: &String)
        ensures
            r == &self.file,
    {
        &self.file
    }

    pub fn start_line(&self) -> (r: usize)
        ensures
            r == self.start_line,
    {
        self.start_line
    }

    pub fn end_line(&self) -> (r: usize)
        ensures
            r == self.end_line,
    {
        self.end_line
    }
}

/// One classified operation that bypasses a language safety guarantee,
/// with the displayed name of its subject where one exists.
#[derive(Debug)]
pub enum Effect {
    SinkCall(String),
    FFICall(String),
    UnsafeCall(String),
    RawPointer(String),
    UnionField(String),
    StaticMut(String),
    StaticExt(String),
    FnPtrCreation,
    ClosureCreation,
    RawPtrCast,
}

/// The effect instance that triggered an audit trail: its kind and the
/// canonical symbol of the originating caller.
#[derive(Debug)]
pub struct EffectInstance {
    pub caller: CanonicalPath,
    pub eff_type: Effect,
}

impl EffectInstance {
    pub fn new(caller: CanonicalPath, eff_type: Effect) -> (r: Self)
        ensures
            r.caller == caller,
            r.eff_type == eff_type,
    {
        EffectInstance { caller, eff_type }
    }

    pub fn caller(&self) -> (r: &CanonicalPath)
        ensures
            r == &self.caller,
    {
        &self.caller
    }

    pub fn eff_type(&self) -> (r: &Effect)
        ensures
            r == &self.eff_type,
    {
        &self.eff_type
    }
}

/// One frame of an audit trail: the caller symbol and the location of the
/// call it makes.
#[derive(Debug)]
pub struct EffectInfo {
    pub caller_path: CanonicalPath,
    pub callee_loc: SrcLoc,
}

impl EffectInfo {
    pub fn new(caller_path: CanonicalPath, callee_loc: SrcLoc) -> (r: Self)
        ensures
            r.caller_path == caller_path,
            r.callee_loc == callee_loc,
    {
        EffectInfo { caller_path, callee_loc }
    }
}

} // verus!
