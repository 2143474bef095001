//! The base path: a path that always starts with a prefix.
use vstd::prelude::*;
use crate::error::Error;
use crate::separators::{is_sep, SEPARATOR, ALT_SEPARATOR};
use crate::prefix::{Prefix, prefix_of, prefix_len, lemma_prefix_len, lemma_prefix_kept, parse_prefix};
use crate::components::{
    Parent, parent_of, body_start_of, trim_end, start_of_piece, lemma_parent_removed,
    lemma_body_start,
};

verus! {

/// An owned path that always starts with a prefix: it is absolute, or
/// relative to the current directory of a drive.
pub struct BasePathBuf {
    inner: Vec<u8>,
}

impl View for BasePathBuf {
    type V = Seq<u8>;

    closed spec fn view(&self) -> Seq<u8> {
        self.inner@
    }
}

/// Whether a separator must be added before a component is appended to
/// `p`: not after a separator, and not after a bare drive (`C:`).
pub open spec fn needs_separator(p: Seq<u8>) -> bool {
    p.len() > 0 && !is_sep(p.last()) && !(prefix_of(p) matches Some(Prefix::Disk(_))
        && prefix_len(p) == p.len())
}

/// `p` with a separator added where one is needed.
pub open spec fn with_separator(p: Seq<u8>) -> Seq<u8> {
    if needs_separator(p) {
        p.push(SEPARATOR)
    } else {
        p
    }
}

impl BasePathBuf {
    #[verifier::type_invariant]
    spec fn inv(&self) -> bool {
        prefix_of(self.inner@) is Some
    }

    /// Wraps bytes that already start with a prefix.
    pub(crate) fn from_vec(inner: Vec<u8>) -> (r: BasePathBuf)
        requires
            prefix_of(inner@) is Some,
        ensures
            r@ == inner@,
    {
        BasePathBuf { inner }
    }

    /// Checks that `path` starts with a prefix and wraps a copy of it.
    pub fn try_new(path: &[u8]) -> (r: Result<BasePathBuf, Error>)
        ensures
            match r {
                Ok(b) => prefix_of(path@) is Some && b@ == path@,
                Err(e) => prefix_of(path@) is None && e == Error::MissingPrefix,
            },
    {
        if crate::prefix::is_base(path) {
            let mut v: Vec<u8> = Vec::with_capacity(path.len());
            let mut i: usize = 0;
            while i < path.len()
                invariant
                    i <= path@.len(),
                    v@ =~= path@.subrange(0, i as int),
                decreases path@.len() - i,
            {
                v.push(path[i]);
                i = i + 1;
            }
            assert(v@ =~= path@);
            Ok(BasePathBuf { inner: v })
        } else {
            Err(Error::MissingPrefix)
        }
    }

    /// Takes ownership of bytes that start with a prefix.
    pub fn new(path: Vec<u8>) -> (r: Result<BasePathBuf, Error>)
        ensures
            match r {
                Ok(b) => prefix_of(path@) is Some && b@ == path@,
                Err(e) => prefix_of(path@) is None && e == Error::MissingPrefix,
            },
    {
        if crate::prefix::is_base(path.as_slice()) {
            Ok(BasePathBuf { inner: path })
        } else {
            Err(Error::MissingPrefix)
        }
    }

    /// Brings into a proof that every base path has a prefix.
    pub(crate) fn prefix_holds(&self)
        ensures
            prefix_of(self@) is Some,
    {
        proof {
            use_type_invariant(self);
        }
    }

    /// A copy of the bytes of this path.
    pub(crate) fn as_bytes_vec(&self) -> (r: Vec<u8>)
        ensures
            r@ == self@,
    {
        self.inner.clone()
    }

    /// The bytes of this path.
    pub fn as_bytes(&self) -> (r: &[u8])
        ensures
            r@ == self@,
    {
        self.inner.as_slice()
    }

    /// The bytes of this path, by value.
    pub fn into_bytes(self) -> (r: Vec<u8>)
        ensures
            r@ == self@,
    {
        self.inner
    }

    /// Removes the last component, as the parent of the path gives it.
    /// Returns whether a component was removed: at the root nothing is, and
    /// that is no error. Fails, leaving the path as it is, when the parent
    /// cannot be known without the file system.
    pub fn pop(&mut self) -> (r: Result<bool, Error>)
        ensures
            match parent_of(old(self)@) {
                Parent::Removed(n) => {
                    &&& r == Ok::<bool, Error>(true)
                    &&& final(self)@ == old(self)@.subrange(0, n as int)
                },
                Parent::AtRoot => r == Ok::<bool, Error>(false) && final(self)@ == old(self)@,
                Parent::Unknown => {
                    &&& r == Err::<bool, Error>(Error::UnknownParent)
                    &&& final(self)@ == old(self)@
                },
            },
    {
        proof {
            use_type_invariant(&*self);
            lemma_body_start(self.inner@);
        }
        let (bs, v) = body_start_of(self.inner.as_slice());
        let len = self.inner.len();
        let e = trim_end(self.inner.as_slice(), bs, len, v);
        if e <= bs {
            let rooted = match parse_prefix(self.inner.as_slice()) {
                Some((Prefix::Disk(_), n)) => n < len && (self.inner[n] == SEPARATOR
                    || self.inner[n] == ALT_SEPARATOR),
                Some(_) => true,
                None => false,
            };
            proof {
                lemma_prefix_len(self.inner@);
            }
            if rooted {
                return Ok(false);
            } else {
                return Err(Error::UnknownParent);
            }
        }
        proof {
            crate::components::lemma_trim_back(self.inner@, bs as int, len as int, v);
        }
        let s = start_of_piece(self.inner.as_slice(), bs, e, v);
        proof {
            crate::components::lemma_piece_start(self.inner@, bs as int, e as int, v);
        }
        if (e - s == 1 && self.inner[s] == 0x2e) || (e - s == 2 && self.inner[s] == 0x2e
            && self.inner[s + 1] == 0x2e) {
            return Err(Error::UnknownParent);
        }
        let n = if s <= bs {
            bs
        } else {
            trim_end(self.inner.as_slice(), bs, s - 1, v)
        };
        proof {
            lemma_parent_removed(self.inner@);
            lemma_prefix_len(self.inner@);
            let p = self.inner@;
            let q = p.subrange(0, n as int);
            assert(q.subrange(0, prefix_len(p)) =~= p.subrange(0, prefix_len(p)));
            lemma_prefix_kept(p, q);
        }
        let mut inner = self.inner.clone();
        inner.truncate(n);
        *self = BasePathBuf { inner };
        Ok(true)
    }
}

/// The prefix of a base path and the number of bytes it spans.
pub fn get_prefix(base: &BasePathBuf) -> (r: (Prefix, usize))
    ensures
        prefix_of(base@) == Some(r.0),
        r.1 == prefix_len(base@),
{
    proof {
        use_type_invariant(base);
    }
    match parse_prefix(base.inner.as_slice()) {
        Some(p) => p,
        None => {
            proof {
                assert(false);
            }
            (Prefix::Verbatim, 0)
        },
    }
}

/// Adds a separator to `base` where one is needed before a component.
pub fn push_separator(base: &mut BasePathBuf)
    ensures
        final(base)@ == with_separator(old(base)@),
{
    proof {
        use_type_invariant(&*base);
        lemma_prefix_len(base.inner@);
    }
    let len = base.inner.len();
    if len == 0 {
        return;
    }
    let last = base.inner[len - 1];
    if last == SEPARATOR || last == ALT_SEPARATOR {
        return;
    }
    let (k, n) = get_prefix(base);
    if n == len && matches!(k, Prefix::Disk(_)) {
        return;
    }
    let mut inner = base.inner.clone();
    inner.push(SEPARATOR);
    proof {
        let p = base.inner@;
        assert(inner@.subrange(0, prefix_len(p)) =~= p.subrange(0, prefix_len(p)));
        lemma_prefix_kept(p, inner@);
    }
    *base = BasePathBuf { inner };
}

} // verus!
