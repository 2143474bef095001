//! The prefix classifier: the volume, share or device marker that a path
//! starts with.
use vstd::prelude::*;
use crate::separators::{is_sep, sep_index, lemma_sep_index, lemma_sep_index_unique, find_sep, SEPARATOR, ALT_SEPARATOR};

verus! {

/// The kinds of prefix a path can start with.
#[derive(Clone, Copy, Debug, PartialEq, Eq, Structural)]
pub enum Prefix {
    /// `\\?\anything`
    Verbatim,
    /// `\\?\UNC\server\share`
    VerbatimUnc,
    /// `\\?\X:`, with the drive letter in upper case
    VerbatimDisk(u8),
    /// `\\.\name`
    DeviceNs,
    /// `\\server\share`
    Unc,
    /// `X:`, with the drive letter in upper case
    Disk(u8),
}

impl Prefix {
    /// Verbatim prefixes switch off every normalization of what follows.
    pub open spec fn spec_is_verbatim(self) -> bool {
        matches!(self, Prefix::Verbatim | Prefix::VerbatimUnc | Prefix::VerbatimDisk(_))
    }

    /// Whether this prefix disables normalization of the rest of the path.
    #[verifier::when_used_as_spec(spec_is_verbatim)]
    pub fn is_verbatim(self) -> (r: bool)
        ensures
            r == self.spec_is_verbatim(),
    {
        matches!(self, Prefix::Verbatim | Prefix::VerbatimUnc | Prefix::VerbatimDisk(_))
    }
}

pub open spec fn is_alpha(b: u8) -> bool {
    (0x41 <= b && b <= 0x5a) || (0x61 <= b && b <= 0x7a)
}

pub open spec fn upper(b: u8) -> u8 {
    if 0x61 <= b && b <= 0x7a {
        (b - 32) as u8
    } else {
        b
    }
}

/// A drive letter and a colon at `i`.
pub open spec fn drive_at(p: Seq<u8>, i: int) -> bool {
    0 <= i && i + 2 <= p.len() && is_alpha(p[i]) && p[i + 1] == 0x3a
}

/// Two leading separators.
pub open spec fn lead_seps(p: Seq<u8>) -> bool {
    p.len() >= 2 && is_sep(p[0]) && is_sep(p[1])
}

/// `\\?\`, either separator allowed.
pub open spec fn verbatim_mark(p: Seq<u8>) -> bool {
    lead_seps(p) && p.len() >= 4 && p[2] == 0x3f && is_sep(p[3])
}

/// `\\.\`, either separator allowed.
pub open spec fn device_mark(p: Seq<u8>) -> bool {
    lead_seps(p) && p.len() >= 4 && p[2] == 0x2e && is_sep(p[3])
}

/// `\\?\UNC\`, either separator allowed.
pub open spec fn verbatim_unc_mark(p: Seq<u8>) -> bool {
    verbatim_mark(p) && p.len() >= 8 && p[4] == 0x55 && p[5] == 0x4e && p[6] == 0x43 && is_sep(
        p[7],
    )
}

/// `\\?\X:` followed by `\` or by nothing.
pub open spec fn verbatim_disk_mark(p: Seq<u8>) -> bool {
    verbatim_mark(p) && !verbatim_unc_mark(p) && drive_at(p, 4) && (p.len() == 6 || p[6]
        == SEPARATOR)
}

/// End of the server name of a `\\server\share` prefix.
pub open spec fn unc_server_end(p: Seq<u8>) -> int {
    sep_index(p, 2, false)
}

/// End of the share name of a `\\server\share` prefix.
pub open spec fn unc_share_end(p: Seq<u8>) -> int {
    if unc_server_end(p) < p.len() {
        sep_index(p, unc_server_end(p) + 1, false)
    } else {
        p.len() as int
    }
}

/// A well-formed `\\server\share`: both names present.
pub open spec fn unc_mark(p: Seq<u8>) -> bool {
    lead_seps(p) && !verbatim_mark(p) && !device_mark(p) && unc_server_end(p) > 2
        && unc_server_end(p) < p.len() && unc_share_end(p) > unc_server_end(p) + 1
}

/// End of a `\\?\UNC\server\share` prefix: the share is left out when empty.
pub open spec fn verbatim_unc_end(p: Seq<u8>) -> int {
    let server_end = sep_index(p, 8, true);
    if server_end < p.len() && sep_index(p, server_end + 1, true) > server_end + 1 {
        sep_index(p, server_end + 1, true)
    } else {
        server_end
    }
}

/// The prefix of `p`, if it has one.
pub open spec fn prefix_of(p: Seq<u8>) -> Option<Prefix> {
    if verbatim_mark(p) {
        if verbatim_unc_mark(p) {
            Some(Prefix::VerbatimUnc)
        } else if verbatim_disk_mark(p) {
            Some(Prefix::VerbatimDisk(upper(p[4])))
        } else {
            Some(Prefix::Verbatim)
        }
    } else if device_mark(p) {
        Some(Prefix::DeviceNs)
    } else if lead_seps(p) {
        if unc_mark(p) {
            Some(Prefix::Unc)
        } else {
            None
        }
    } else if drive_at(p, 0) {
        Some(Prefix::Disk(upper(p[0])))
    } else {
        None
    }
}

/// The number of bytes that the prefix of `p` spans; 0 without a prefix.
pub open spec fn prefix_len(p: Seq<u8>) -> int {
    match prefix_of(p) {
        Some(Prefix::VerbatimUnc) => verbatim_unc_end(p),
        Some(Prefix::VerbatimDisk(_)) => 6,
        Some(Prefix::Verbatim) => sep_index(p, 4, true),
        Some(Prefix::DeviceNs) => sep_index(p, 4, false),
        Some(Prefix::Unc) => unc_share_end(p),
        Some(Prefix::Disk(_)) => 2,
        None => 0,
    }
}

/// Whether `p` has a verbatim prefix.
pub open spec fn is_verbatim_path(p: Seq<u8>) -> bool {
    match prefix_of(p) {
        Some(k) => k.spec_is_verbatim(),
        None => false,
    }
}

/// The prefix always lies within the path.
pub proof fn lemma_prefix_len(p: Seq<u8>)
    ensures
        0 <= prefix_len(p) <= p.len(),
        prefix_of(p) is Some ==> prefix_len(p) >= 2,
        prefix_of(p) is None ==> prefix_len(p) == 0,
        prefix_len(p) < p.len() && is_verbatim_path(p) ==> p[prefix_len(p)] == SEPARATOR,
{
    if verbatim_mark(p) {
        lemma_sep_index(p, 4, true);
        if p.len() >= 8 {
            lemma_sep_index(p, 8, true);
            let e = sep_index(p, 8, true);
            if e < p.len() {
                lemma_sep_index(p, e + 1, true);
            }
        }
    } else if device_mark(p) {
        lemma_sep_index(p, 4, false);
    } else if lead_seps(p) {
        lemma_sep_index(p, 2, false);
        let e = sep_index(p, 2, false);
        if e < p.len() {
            lemma_sep_index(p, e + 1, false);
        }
    }
}

/// A path that starts with the same bytes as the prefix of `p` has a prefix
/// too.
pub proof fn lemma_prefix_kept(p: Seq<u8>, q: Seq<u8>)
    requires
        prefix_of(p) is Some,
        prefix_len(p) <= q.len(),
        q.subrange(0, prefix_len(p)) == p.subrange(0, prefix_len(p)),
    ensures
        prefix_of(q) is Some,
{
    lemma_prefix_len(p);
    let n = prefix_len(p);
    assert forall|i: int| 0 <= i < n implies q[i] == p[i] by {
        assert(q.subrange(0, n)[i] == p.subrange(0, n)[i]);
    }
    if verbatim_mark(p) {
        lemma_sep_index(p, 4, true);
        if p.len() >= 8 {
            lemma_sep_index(p, 8, true);
        }
        assert(n >= 4);
        assert(verbatim_mark(q));
    } else if device_mark(p) {
        lemma_sep_index(p, 4, false);
        assert(device_mark(q));
    } else if lead_seps(p) {
        let se = unc_server_end(p);
        lemma_sep_index(p, 2, false);
        lemma_sep_index(p, se + 1, false);
        assert(n >= 5);
        assert(lead_seps(q));
        assert(!verbatim_mark(q));
        assert(!device_mark(q));
        lemma_sep_index_unique(q, 2, se, false);
        lemma_sep_index(q, se + 1, false);
        let r = sep_index(q, se + 1, false);
        if r < n {
            assert(q[r] == p[r]);
        }
        assert(unc_mark(q));
    } else {
        assert(!lead_seps(q));
        assert(drive_at(q, 0));
    }
}

fn byte_is_sep(b: u8) -> (r: bool)
    ensures
        r == is_sep(b),
{
    b == SEPARATOR || b == ALT_SEPARATOR
}

fn byte_is_alpha(b: u8) -> (r: bool)
    ensures
        r == is_alpha(b),
{
    (0x41 <= b && b <= 0x5a) || (0x61 <= b && b <= 0x7a)
}

fn to_upper(b: u8) -> (r: u8)
    ensures
        r == upper(b),
{
    if 0x61 <= b && b <= 0x7a {
        b - 32
    } else {
        b
    }
}

fn has_drive_at(p: &[u8], i: usize) -> (r: bool)
    requires
        i <= 4,
    ensures
        r == drive_at(p@, i as int),
{
    i + 2 <= p.len() && byte_is_alpha(p[i]) && p[i + 1] == 0x3a
}

/// Classifies the prefix of `path` and gives the number of bytes it spans.
pub fn parse_prefix(path: &[u8]) -> (r: Option<(Prefix, usize)>)
    ensures
        match r {
            Some((k, n)) => prefix_of(path@) == Some(k) && n == prefix_len(path@),
            None => prefix_of(path@) is None,
        },
{
    let len = path.len();
    let lead = len >= 2 && byte_is_sep(path[0]) && byte_is_sep(path[1]);
    if lead && len >= 4 && path[2] == 0x3f && byte_is_sep(path[3]) {
        if len >= 8 && path[4] == 0x55 && path[5] == 0x4e && path[6] == 0x43 && byte_is_sep(
            path[7],
        ) {
            let server_end = find_sep(path, 8, true);
            proof {
                lemma_sep_index(path@, 8, true);
            }
            if server_end < len {
                let share_end = find_sep(path, server_end + 1, true);
                if share_end > server_end + 1 {
                    return Some((Prefix::VerbatimUnc, share_end));
                }
            }
            Some((Prefix::VerbatimUnc, server_end))
        } else if has_drive_at(path, 4) && (len == 6 || path[6] == SEPARATOR) {
            Some((Prefix::VerbatimDisk(to_upper(path[4])), 6))
        } else {
            Some((Prefix::Verbatim, find_sep(path, 4, true)))
        }
    } else if lead && len >= 4 && path[2] == 0x2e && byte_is_sep(path[3]) {
        Some((Prefix::DeviceNs, find_sep(path, 4, false)))
    } else if lead {
        let server_end = find_sep(path, 2, false);
        proof {
            lemma_sep_index(path@, 2, false);
        }
        if server_end > 2 && server_end < len {
            let share_end = find_sep(path, server_end + 1, false);
            if share_end > server_end + 1 {
                return Some((Prefix::Unc, share_end));
            }
        }
        None
    } else if has_drive_at(path, 0) {
        Some((Prefix::Disk(to_upper(path[0])), 2))
    } else {
        None
    }
}

/// Whether `path` starts with a prefix, so that it is absolute or
/// drive-relative and can serve as a base path.
pub fn is_base(path: &[u8]) -> (r: bool)
    ensures
        r == (prefix_of(path@) is Some),
{
    parse_prefix(path).is_some()
}

/// Whether `path` has a verbatim prefix.
pub fn is_verbatim(path: &[u8]) -> (r: bool)
    ensures
        r == is_verbatim_path(path@),
{
    match parse_prefix(path) {
        Some((k, _)) => k.is_verbatim(),
        None => false,
    }
}

} // verus!
