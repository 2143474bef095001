//! Joining a path fragment onto a base path by the Windows rules, without
//! touching the file system.
use vstd::prelude::*;
use crate::separators::{
    is_sep, sep_index, lemma_sep_index, find_sep, converted, convert_separators, SEPARATOR,
    ALT_SEPARATOR,
};
use crate::prefix::{
    Prefix, prefix_of, prefix_len, is_verbatim_path, verbatim_mark, lemma_prefix_len,
    lemma_prefix_kept, parse_prefix,
};
use crate::components::{
    Parent, parent_of, is_dot, is_dot_dot, trim_back, lemma_trim_back, trim_end, physical_root,
};
use crate::base::{BasePathBuf, with_separator, get_prefix, push_separator};

verus! {

/// Index of the first piece of `c` at or after `pos` that is neither empty
/// nor `.`, or `c.len()`.
pub open spec fn skip_front(c: Seq<u8>, pos: int) -> int
    decreases c.len() + 1 - pos,
{
    if pos < 0 || pos >= c.len() {
        c.len() as int
    } else {
        let e = sep_index(c, pos, false);
        proof {
            lemma_sep_index(c, pos, false);
        }
        if e == pos || is_dot(c, pos, e) {
            skip_front(c, e + 1)
        } else {
            pos
        }
    }
}

/// Applies the leading pieces of `c` from `pos` to the base `b`: empty and
/// `.` pieces are skipped and each `..` removes the last component of `b`
/// (a no-op at the root). Stops at the first other piece, or at a `..` whose
/// parent is unknown, and gives the base reached and where it stopped.
pub open spec fn walk(b: Seq<u8>, c: Seq<u8>, pos: int) -> (Seq<u8>, int)
    decreases c.len() + 1 - pos,
{
    if pos < 0 || pos >= c.len() {
        (b, c.len() as int)
    } else {
        let e = sep_index(c, pos, false);
        proof {
            lemma_sep_index(c, pos, false);
        }
        if e == pos || is_dot(c, pos, e) {
            walk(b, c, e + 1)
        } else if is_dot_dot(c, pos, e) {
            match parent_of(b) {
                Parent::Removed(n) => walk(b.subrange(0, n as int), c, e + 1),
                Parent::AtRoot => walk(b, c, e + 1),
                Parent::Unknown => (b, pos),
            }
        } else {
            (b, pos)
        }
    }
}

/// Appends to `b` the piece of `c` at `k` and, after one separator, the
/// rest of `c` without its leading and trailing empty and `.` pieces.
pub open spec fn append_tail(b: Seq<u8>, c: Seq<u8>, k: int) -> Seq<u8> {
    let e = sep_index(c, k, false);
    let j = skip_front(c, e + 1);
    let m = trim_back(c, j, c.len() as int, false);
    let head = with_separator(b) + c.subrange(k, e);
    if j < m {
        with_separator(head) + c.subrange(j, m)
    } else {
        head
    }
}

/// Whether the fragment ends in a way that names a directory: with a
/// separator, or with a separator and `.`.
pub open spec fn keeps_trailing(c: Seq<u8>) -> bool {
    c.len() > 0 && (c.last() == SEPARATOR || (c.len() >= 2 && c.last() == 0x2e && c[c.len()
        - 2] == SEPARATOR))
}

/// `r` with a separator added where the fragment `c` names a directory.
pub open spec fn with_trailing(c: Seq<u8>, r: Seq<u8>) -> Seq<u8> {
    if keeps_trailing(c) {
        with_separator(r)
    } else {
        r
    }
}

/// Index of the first byte of `c` at or after `i` that is not a
/// separator, or `c.len()`.
pub open spec fn skip_seps(c: Seq<u8>, i: int) -> int
    decreases c.len() - i,
{
    if i < 0 || i >= c.len() {
        c.len() as int
    } else if is_sep(c[i]) {
        skip_seps(c, i + 1)
    } else {
        i
    }
}

/// Resolves the relative part of `c`, from `start`, against `b`.
pub open spec fn resolved(b: Seq<u8>, c: Seq<u8>, start: int) -> Seq<u8> {
    let (b1, k) = walk(b, c, start);
    let b2 = if k < c.len() {
        append_tail(b1, c, k)
    } else {
        b1
    };
    with_trailing(c, b2)
}

/// The rooted fragment `c` on the prefix of `b`: its leading separators
/// collapse to one.
pub open spec fn rooted_on(b: Seq<u8>, c: Seq<u8>) -> Seq<u8> {
    b.subrange(0, prefix_len(b)) + seq![SEPARATOR] + c.subrange(skip_seps(c, 0), c.len() as int)
}

/// The result of pushing the fragment `f` onto the base path `b`.
/// - A verbatim fragment replaces the base, with only the separators of its
///   first four bytes rewritten.
/// - A fragment with another prefix replaces the base, unless it is a bare
///   drive prefix of the base's own drive, without a root: then the rest of
///   it is resolved against the base.
/// - A rooted fragment without a prefix keeps the prefix of the base and
///   replaces the rest; its leading separators collapse to one.
/// - A relative fragment is resolved against the base.
/// Except for a verbatim fragment, a separator is added at the end where
/// the fragment ends with a separator, or with a separator and `.`.
pub open spec fn pushed(b: Seq<u8>, f: Seq<u8>) -> Seq<u8> {
    let c = converted(f, f.len() as int);
    match prefix_of(c) {
        Some(k) => {
            if k.spec_is_verbatim() {
                converted(f, 4)
            } else if k is Disk && prefix_of(b) == Some(k) && !physical_root(c) {
                resolved(b, c, 2)
            } else {
                with_trailing(c, c)
            }
        },
        None => {
            if c.len() > 0 && is_sep(c[0]) {
                with_trailing(c, rooted_on(b, c))
            } else {
                resolved(b, c, 0)
            }
        },
    }
}

/// Separators are rewritten byte by byte, so a verbatim marker stays one.
pub proof fn lemma_verbatim_converted(f: Seq<u8>, limit: int)
    requires
        limit >= 4 || limit >= f.len(),
    ensures
        verbatim_mark(converted(f, limit)) == verbatim_mark(f),
        is_verbatim_path(converted(f, limit)) == is_verbatim_path(f),
        verbatim_mark(f) ==> prefix_of(converted(f, limit)) is Some,
{
    let c = converted(f, limit);
    if f.len() >= 4 {
        assert(is_sep(c[0]) == is_sep(f[0]));
        assert(is_sep(c[1]) == is_sep(f[1]));
        assert((c[2] == 0x3f) == (f[2] == 0x3f));
        assert(is_sep(c[3]) == is_sep(f[3]));
    }
}

/// Gives the base path that a verbatim path stands for: the path itself,
/// with only the separators of the `\\?\` marker made canonical.
pub fn normalize_verbatim(path: &[u8]) -> (r: BasePathBuf)
    requires
        is_verbatim_path(path@),
    ensures
        r@ == converted(path@, 4),
{
    let v = convert_separators(path, Some(4));
    proof {
        lemma_verbatim_converted(path@, 4);
    }
    BasePathBuf::from_vec(v)
}

/// Computes `skip_front`.
fn skip_pieces(c: &[u8], start: usize) -> (r: usize)
    requires
        start <= c@.len(),
    ensures
        r == skip_front(c@, start as int),
        r <= c@.len(),
{
    let mut pos: usize = start;
    loop
        invariant
            pos <= c@.len(),
            skip_front(c@, pos as int) == skip_front(c@, start as int),
        decreases c@.len() - pos,
    {
        if pos >= c.len() {
            return c.len();
        }
        let e = find_sep(c, pos, false);
        proof {
            lemma_sep_index(c@, pos as int, false);
        }
        if e == pos || (e - pos == 1 && c[pos] == 0x2e) {
            if e >= c.len() {
                assert(skip_front(c@, e as int + 1) == c@.len());
                return c.len();
            }
            pos = e + 1;
        } else {
            return pos;
        }
    }
}

/// Computes `skip_seps(c, 0)`.
fn skip_separators(c: &[u8]) -> (r: usize)
    ensures
        r == skip_seps(c@, 0),
        r <= c@.len(),
{
    let mut i: usize = 0;
    while i < c.len()
        invariant
            i <= c@.len(),
            skip_seps(c@, i as int) == skip_seps(c@, 0),
        decreases c@.len() - i,
    {
        if c[i] != SEPARATOR && c[i] != ALT_SEPARATOR {
            return i;
        }
        i = i + 1;
    }
    i
}

impl BasePathBuf {
    /// Appends `src[from..to]` to this path.
    fn extend_from(&mut self, src: &[u8], from: usize, to: usize)
        requires
            from <= to <= src@.len(),
        ensures
            final(self)@ == old(self)@ + src@.subrange(from as int, to as int),
    {
        let mut v = self.as_bytes_vec();
        let ghost p = v@;
        let mut i: usize = from;
        while i < to
            invariant
                from <= i <= to <= src@.len(),
                v@ =~= p + src@.subrange(from as int, i as int),
            decreases to - i,
        {
            v.push(src[i]);
            i = i + 1;
        }
        self.prefix_holds();
        proof {
            lemma_prefix_len(p);
            assert(v@.subrange(0, prefix_len(p)) =~= p.subrange(0, prefix_len(p)));
            lemma_prefix_kept(p, v@);
        }
        *self = BasePathBuf::from_vec(v);
    }
}

/// Adds a separator to `base` where the fragment `c` names a directory.
fn push_trailing(base: &mut BasePathBuf, c: &[u8])
    ensures
        final(base)@ == with_trailing(c@, old(base)@),
{
    let n = c.len();
    if n > 0 && (c[n - 1] == SEPARATOR || (n >= 2 && c[n - 1] == 0x2e && c[n - 2] == SEPARATOR)) {
        push_separator(base);
    }
}

/// Resolves `c` from `start` against `base`.
fn resolve_onto(base: &mut BasePathBuf, c: &[u8], start: usize)
    requires
        start <= c@.len(),
    ensures
        final(base)@ == resolved(old(base)@, c@, start as int),
{
    let ghost b0 = base@;
    let mut k: usize = 0;
    {
        let mut pos: usize = start;
        loop
            invariant
                pos <= c@.len(),
                walk(base@, c@, pos as int) == walk(b0, c@, start as int),
            ensures
                walk(b0, c@, start as int) == (base@, k as int),
            decreases c@.len() - pos,
        {
            if pos >= c.len() {
                assert(walk(base@, c@, pos as int) == (base@, c@.len() as int));
                k = c.len();
                break;
            }
            let e = find_sep(c, pos, false);
            proof {
                lemma_sep_index(c@, pos as int, false);
            }
            let next = if e >= c.len() {
                c.len()
            } else {
                e + 1
            };
            assert(forall|b: Seq<u8>| walk(b, c@, next as int) == #[trigger] walk(b, c@, e as int + 1));
            if e == pos || (e - pos == 1 && c[pos] == 0x2e) {
                assert(walk(base@, c@, pos as int) == walk(base@, c@, e + 1));
                pos = next;
            } else if e - pos == 2 && c[pos] == 0x2e && c[pos + 1] == 0x2e {
                match base.pop() {
                    Ok(_) => {
                        assert(walk(base@, c@, e + 1) == walk(b0, c@, start as int));
                        pos = next;
                    },
                    Err(_) => {
                        assert(walk(base@, c@, pos as int) == (base@, pos as int));
                        k = pos;
                        break;
                    },
                }
            } else {
                assert(walk(base@, c@, pos as int) == (base@, pos as int));
                k = pos;
                break;
            }
        }
    }
    if k < c.len() {
        let e = find_sep(c, k, false);
        proof {
            lemma_sep_index(c@, k as int, false);
        }
        let j = if e >= c.len() {
            c.len()
        } else {
            skip_pieces(c, e + 1)
        };
        assert(j == skip_front(c@, e + 1));
        let ghost b1 = base@;
        let m = trim_end(c, j, c.len(), false);
        proof {
            lemma_trim_back(c@, j as int, c@.len() as int, false);
        }
        push_separator(base);
        base.extend_from(c, k, e);
        if j < m {
            push_separator(base);
            base.extend_from(c, j, m);
        }
        assert(base@ == append_tail(b1, c@, k as int));
    }
    push_trailing(base, c);
}

/// Pushes the fragment `path` onto `base`, as the Windows path rules join
/// them. This never touches the file system.
pub fn push(base: &mut BasePathBuf, path: &[u8])
    ensures
        final(base)@ == pushed(old(base)@, path@),
{
    let c = convert_separators(path, None);
    proof {
        lemma_verbatim_converted(path@, path@.len() as int);
    }
    match parse_prefix(c.as_slice()) {
        Some((k, _)) => {
            if k.is_verbatim() {
                *base = normalize_verbatim(path);
                return;
            }
            let (bk, _) = get_prefix(base);
            let rooted = c.len() > 2 && (c[2] == SEPARATOR || c[2] == ALT_SEPARATOR);
            if matches!(k, Prefix::Disk(_)) && k == bk && !rooted {
                resolve_onto(base, c.as_slice(), 2);
            } else {
                *base = BasePathBuf::from_vec(c.clone());
                push_trailing(base, c.as_slice());
            }
        },
        None => {
            if c.len() > 0 && (c[0] == SEPARATOR || c[0] == ALT_SEPARATOR) {
                let (_, n) = get_prefix(base);
                let mut v: Vec<u8> = Vec::new();
                let bytes = base.as_bytes();
                base.prefix_holds();
                proof {
                    lemma_prefix_len(base@);
                }
                let mut i: usize = 0;
                while i < n
                    invariant
                        i <= n,
                        n == prefix_len(bytes@),
                        n <= bytes@.len(),
                        v@ =~= bytes@.subrange(0, i as int),
                    decreases n - i,
                {
                    v.push(bytes[i]);
                    i = i + 1;
                }
                v.push(SEPARATOR);
                let lead = skip_separators(c.as_slice());
                let mut j: usize = lead;
                while j < c.len()
                    invariant
                        lead <= j <= c@.len(),
                        v@ =~= bytes@.subrange(0, n as int) + seq![SEPARATOR] + c@.subrange(
                            lead as int,
                            j as int,
                        ),
                    decreases c@.len() - j,
                {
                    v.push(c[j]);
                    j = j + 1;
                }
                proof {
                    let p = bytes@;
                    assert(v@.subrange(0, prefix_len(p)) =~= p.subrange(0, prefix_len(p)));
                    lemma_prefix_kept(p, v@);
                }
                *base = BasePathBuf::from_vec(v);
                push_trailing(base, c.as_slice());
            } else {
                resolve_onto(base, c.as_slice(), 0);
            }
        },
    }
}

impl BasePathBuf {
    /// Pushes `path` onto this path by the Windows rules; see `pushed`.
    pub fn push(&mut self, path: &[u8])
        ensures
            final(self)@ == pushed(old(self)@, path@),
    {
        push(self, path)
    }

    /// This path with `path` pushed onto it; see `pushed`.
    pub fn join(&self, path: &[u8]) -> (r: BasePathBuf)
        ensures
            r@ == pushed(self@, path@),
    {
        self.prefix_holds();
        let mut r = BasePathBuf::from_vec(self.as_bytes_vec());
        push(&mut r, path);
        r
    }
}

/// Makes `path` absolute against the current directory, which the caller
/// reads from the platform.
pub fn to_base(current_dir: BasePathBuf, path: &[u8]) -> (r: BasePathBuf)
    ensures
        r@ == pushed(current_dir@, path@),
{
    let mut base = current_dir;
    push(&mut base, path);
    base
}

} // verus!
