//! The full-path resolver: the checks made before the platform's full-path
//! call, and the decisions of the growable-buffer protocol around it.
use vstd::prelude::*;
use crate::error::Error;
use crate::separators::{converted, convert_separators, SEPARATOR};
use crate::prefix::{prefix_of, is_verbatim_path, parse_prefix};
use crate::base::BasePathBuf;
use crate::join::normalize_verbatim;

verus! {

/// Whether `p` holds a NUL byte.
pub open spec fn contains_nul(p: Seq<u8>) -> bool {
    exists|i: int| 0 <= i < p.len() && p[i] == 0
}

/// A root separator directly followed by another separator, with no server
/// name: an invalid, partial UNC prefix.
pub open spec fn partial_unc(c: Seq<u8>) -> bool {
    prefix_of(c) is None && c.len() >= 2 && c[0] == SEPARATOR && c[1] == SEPARATOR
}

/// What normalizing a path needs once the library has checked it.
pub enum Resolution {
    /// A verbatim path is not resolved: this is its base path.
    Ready(BasePathBuf),
    /// The platform's full-path call is to expand these bytes, whose
    /// separators are already canonical.
    Expand(Vec<u8>),
}

/// The steps of normalization before the platform call, as values.
pub enum Prepared {
    Ready(Seq<u8>),
    Expand(Seq<u8>),
}

/// What normalizing `p` without the file system leads to before the
/// platform call: NUL bytes are refused, a verbatim path is its own result,
/// a partial UNC prefix is refused, and anything else is expanded by the
/// platform with canonical separators.
pub open spec fn prepared(p: Seq<u8>) -> Result<Prepared, Error> {
    let c = converted(p, p.len() as int);
    if contains_nul(p) {
        Err(Error::ContainsNul)
    } else if is_verbatim_path(c) {
        Ok(Prepared::Ready(converted(p, 4)))
    } else if partial_unc(c) {
        Err(Error::PartialUnc)
    } else {
        Ok(Prepared::Expand(c))
    }
}

impl Resolution {
    pub open spec fn spec_view(self) -> Prepared {
        match self {
            Resolution::Ready(b) => Prepared::Ready(b@),
            Resolution::Expand(v) => Prepared::Expand(v@),
        }
    }
}

/// The view of a normalization outcome.
pub open spec fn outcome(r: Result<Resolution, Error>) -> Result<Prepared, Error> {
    match r {
        Ok(x) => Ok(x.spec_view()),
        Err(e) => Err(e),
    }
}

fn has_nul(p: &[u8]) -> (r: bool)
    ensures
        r == contains_nul(p@),
{
    let mut i: usize = 0;
    while i < p.len()
        invariant
            i <= p@.len(),
            forall|j: int| 0 <= j < i ==> p@[j] != 0,
        decreases p@.len() - i,
    {
        if p[i] == 0 {
            return true;
        }
        i = i + 1;
    }
    false
}

/// Normalizes `path` without the file system, up to the platform's
/// full-path call: see `prepared`.
pub fn normalize_virtually(path: &[u8]) -> (r: Result<Resolution, Error>)
    ensures
        outcome(r) == prepared(path@),
{
    let c = convert_separators(path, None);
    if has_nul(path) {
        return Err(Error::ContainsNul);
    }
    let verbatim = match parse_prefix(c.as_slice()) {
        Some((k, _)) => k.is_verbatim(),
        None => false,
    };
    if verbatim {
        proof {
            let p = path@;
            let c = converted(p, p.len() as int);
            if p.len() >= 4 {
                assert(crate::separators::is_sep(c[0]) == crate::separators::is_sep(p[0]));
                assert(crate::separators::is_sep(c[1]) == crate::separators::is_sep(p[1]));
                assert((c[2] == 0x3f) == (p[2] == 0x3f));
                assert(crate::separators::is_sep(c[3]) == crate::separators::is_sep(p[3]));
            }
        }
        return Ok(Resolution::Ready(normalize_verbatim(path)));
    }
    let partial = parse_prefix(c.as_slice()).is_none() && c.len() >= 2 && c[0] == SEPARATOR
        && c[1] == SEPARATOR;
    if partial {
        return Err(Error::PartialUnc);
    }
    Ok(Resolution::Expand(c))
}

/// Normalizes `path` once the platform has told whether it exists: a failed
/// probe is returned as it is, before anything else is tried.
pub fn normalize(path: &[u8], probe: Result<(), Error>) -> (r: Result<Resolution, Error>)
    ensures
        match probe {
            Err(e) => r == Err::<Resolution, Error>(e),
            Ok(_) => outcome(r) == prepared(path@),
        },
{
    match probe {
        Err(e) => Err(e),
        Ok(_) => normalize_virtually(path),
    }
}

/// Room added beyond the length that the full-path call asks for, since
/// some platform versions ask for too little.
pub const EXTRA_CAPACITY: u32 = 16;

/// The next step of the buffer protocol.
#[derive(Clone, Copy, Debug, PartialEq, Eq, Structural)]
pub enum Step {
    /// Call again with a buffer of this many units.
    Retry(u32),
    /// The call succeeded: its output is this many units long.
    Done(usize),
    /// The call failed: the platform's last error says why.
    Failed,
}

/// The decision after a call that was given `capacity` units returned
/// `returned`: zero is a failure; a value up to the capacity is the length
/// of the output; a greater value is the length needed, and the buffer is
/// grown past it, unless that overflows. (A call that fits its output also
/// writes a NUL, so it never returns the capacity itself as a length needed.)
pub open spec fn next_step(capacity: u32, returned: u32) -> Result<Step, Error> {
    if returned == 0 {
        Ok(Step::Failed)
    } else if returned <= capacity {
        Ok(Step::Done(returned as usize))
    } else if returned as int + EXTRA_CAPACITY as int > u32::MAX as int {
        Err(Error::TooLong)
    } else {
        Ok(Step::Retry((returned + EXTRA_CAPACITY) as u32))
    }
}

/// The state of the growable-buffer protocol around the full-path call.
pub struct Expansion {
    capacity: u32,
}

impl View for Expansion {
    type V = u32;

    closed spec fn view(&self) -> u32 {
        self.capacity
    }
}

impl Expansion {
    /// The protocol starts with an empty buffer, which makes the first call
    /// report the length it needs.
    pub fn new() -> (r: Expansion)
        ensures
            r@ == 0,
    {
        Expansion { capacity: 0 }
    }

    /// How many units the buffer for the next call must hold.
    pub fn capacity(&self) -> (r: u32)
        ensures
            r == self@,
    {
        self.capacity
    }

    /// Takes what the call returned and decides the next step; on a retry
    /// the capacity grows to the one given, which is strictly larger.
    pub fn step(&mut self, returned: u32) -> (r: Result<Step, Error>)
        ensures
            r == next_step(old(self)@, returned),
            match r {
                Ok(Step::Retry(n)) => final(self)@ == n && n > old(self)@,
                _ => final(self)@ == old(self)@,
            },
    {
        if returned == 0 {
            Ok(Step::Failed)
        } else if returned <= self.capacity {
            Ok(Step::Done(returned as usize))
        } else if returned > u32::MAX - EXTRA_CAPACITY {
            Err(Error::TooLong)
        } else {
            self.capacity = returned + EXTRA_CAPACITY;
            Ok(Step::Retry(self.capacity))
        }
    }
}

} // verus!
