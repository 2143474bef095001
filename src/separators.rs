//! Separator bytes and the separator normalizer.
use vstd::prelude::*;

verus! {

/// The canonical directory separator, `\`.
pub const SEPARATOR: u8 = 0x5c;

/// The alternate directory separator, `/`.
pub const ALT_SEPARATOR: u8 = 0x2f;

/// Either separator.
pub open spec fn is_sep(b: u8) -> bool {
    b == SEPARATOR || b == ALT_SEPARATOR
}

/// A separator in the body of a path: a verbatim path only knows `\`.
pub open spec fn is_sep_in(b: u8, verbatim: bool) -> bool {
    if verbatim {
        b == SEPARATOR
    } else {
        is_sep(b)
    }
}

/// Index of the first separator of `s` at or after `from`, or `s.len()` if
/// there is none.
pub open spec fn sep_index(s: Seq<u8>, from: int, verbatim: bool) -> int
    decreases s.len() - from,
{
    if from < 0 || from >= s.len() {
        s.len() as int
    } else if is_sep_in(s[from], verbatim) {
        from
    } else {
        sep_index(s, from + 1, verbatim)
    }
}

/// What characterizes `sep_index`: it stops at the first separator.
pub proof fn lemma_sep_index(s: Seq<u8>, from: int, verbatim: bool)
    requires
        0 <= from <= s.len(),
    ensures
        from <= sep_index(s, from, verbatim) <= s.len(),
        sep_index(s, from, verbatim) < s.len() ==> is_sep_in(s[sep_index(s, from, verbatim)], verbatim),
        forall|i: int| from <= i < sep_index(s, from, verbatim) ==> !is_sep_in(#[trigger] s[i], verbatim),
    decreases s.len() - from,
{
    if from < s.len() && !is_sep_in(s[from], verbatim) {
        lemma_sep_index(s, from + 1, verbatim);
    }
}

/// Any index with these properties is `sep_index`.
pub proof fn lemma_sep_index_unique(s: Seq<u8>, from: int, r: int, verbatim: bool)
    requires
        0 <= from <= r <= s.len(),
        r < s.len() ==> is_sep_in(s[r], verbatim),
        forall|i: int| from <= i < r ==> !is_sep_in(#[trigger] s[i], verbatim),
    ensures
        sep_index(s, from, verbatim) == r,
    decreases r - from,
{
    if from < r {
        lemma_sep_index_unique(s, from + 1, r, verbatim);
    }
}

/// Finds the first separator at or after `from`.
pub fn find_sep(s: &[u8], from: usize, verbatim: bool) -> (r: usize)
    requires
        from <= s@.len(),
    ensures
        r == sep_index(s@, from as int, verbatim),
{
    let mut i: usize = from;
    while i < s.len()
        invariant
            from <= i <= s@.len(),
            forall|j: int| from <= j < i ==> !is_sep_in(#[trigger] s@[j], verbatim),
        decreases s@.len() - i,
    {
        let b = s[i];
        if b == SEPARATOR || (!verbatim && b == ALT_SEPARATOR) {
            proof {
                lemma_sep_index_unique(s@, from as int, i as int, verbatim);
            }
            return i;
        }
        i = i + 1;
    }
    proof {
        lemma_sep_index_unique(s@, from as int, i as int, verbatim);
    }
    i
}

/// `s` with every `/` among its first `limit` bytes replaced by `\`.
pub open spec fn converted(s: Seq<u8>, limit: int) -> Seq<u8> {
    Seq::new(
        s.len(),
        |i: int|
            if i < limit && s[i] == ALT_SEPARATOR {
                SEPARATOR
            } else {
                s[i]
            },
    )
}

/// Rewrites `/` to `\` in the first `limit` bytes of `path`, or in the whole
/// of it when `limit` is `None`; the rest is copied unchanged.
pub fn convert_separators(path: &[u8], limit: Option<usize>) -> (r: Vec<u8>)
    ensures
        r@ == converted(
            path@,
            match limit {
                Some(n) => n as int,
                None => path@.len() as int,
            },
        ),
{
    let n: usize = match limit {
        Some(n) => n,
        None => path.len(),
    };
    let mut out: Vec<u8> = Vec::with_capacity(path.len());
    let mut i: usize = 0;
    while i < path.len()
        invariant
            i <= path@.len(),
            out@ =~= converted(path@, n as int).subrange(0, i as int),
        decreases path@.len() - i,
    {
        let b = path[i];
        if i < n && b == ALT_SEPARATOR {
            out.push(SEPARATOR);
        } else {
            out.push(b);
        }
        i = i + 1;
    }
    out
}

} // verus!
