//! The structure of a path after its prefix: the root separator and the
//! body, and the rule that finds the parent of a path.
use vstd::prelude::*;
use crate::separators::{is_sep, is_sep_in, sep_index, SEPARATOR, ALT_SEPARATOR};
use crate::prefix::{Prefix, prefix_of, prefix_len, is_verbatim_path, lemma_prefix_len};

verus! {

/// Whether a separator follows the prefix of `p`.
pub open spec fn physical_root(p: Seq<u8>) -> bool {
    prefix_len(p) < p.len() && is_sep(p[prefix_len(p)])
}

/// Where the body of `p` starts: after its prefix and its root separator.
pub open spec fn body_start(p: Seq<u8>) -> int {
    prefix_len(p) + if physical_root(p) {
        1int
    } else {
        0int
    }
}

/// Whether `p` is rooted: a root separator, or a prefix other than a bare
/// drive, which always stands for a root of its own.
pub open spec fn has_root(p: Seq<u8>) -> bool {
    physical_root(p) || match prefix_of(p) {
        Some(Prefix::Disk(_)) => false,
        Some(_) => true,
        None => false,
    }
}

/// The piece `p[s..e]` is `.`.
pub open spec fn is_dot(p: Seq<u8>, s: int, e: int) -> bool {
    e == s + 1 && p[s] == 0x2e
}

/// The piece `p[s..e]` is `..`.
pub open spec fn is_dot_dot(p: Seq<u8>, s: int, e: int) -> bool {
    e == s + 2 && p[s] == 0x2e && p[s + 1] == 0x2e
}

/// End of `p[lo..end]` once trailing empty pieces are removed, and trailing
/// `.` pieces too unless the path is verbatim (where `.` is a name).
pub open spec fn trim_back(p: Seq<u8>, lo: int, end: int, verbatim: bool) -> int
    decreases end - lo,
{
    if end <= lo {
        lo
    } else if is_sep_in(p[end - 1], verbatim) {
        trim_back(p, lo, end - 1, verbatim)
    } else if !verbatim && p[end - 1] == 0x2e && (end - 1 == lo || is_sep(p[end - 2])) {
        if end - 1 == lo {
            lo
        } else {
            trim_back(p, lo, end - 2, verbatim)
        }
    } else {
        end
    }
}

/// Start of the last piece of `p[lo..end]`.
pub open spec fn piece_start(p: Seq<u8>, lo: int, end: int, verbatim: bool) -> int
    decreases end - lo,
{
    if end <= lo {
        lo
    } else if is_sep_in(p[end - 1], verbatim) {
        end
    } else {
        piece_start(p, lo, end - 1, verbatim)
    }
}

pub proof fn lemma_trim_back(p: Seq<u8>, lo: int, end: int, verbatim: bool)
    requires
        0 <= lo <= end <= p.len(),
    ensures
        lo <= trim_back(p, lo, end, verbatim) <= end,
        trim_back(p, lo, end, verbatim) > lo ==> !is_sep_in(
            p[trim_back(p, lo, end, verbatim) - 1],
            verbatim,
        ),
    decreases end - lo,
{
    if end > lo {
        if is_sep_in(p[end - 1], verbatim) {
            lemma_trim_back(p, lo, end - 1, verbatim);
        } else if !verbatim && p[end - 1] == 0x2e && (end - 1 == lo || is_sep(p[end - 2])) {
            if end - 1 != lo {
                lemma_trim_back(p, lo, end - 2, verbatim);
            }
        }
    }
}

pub proof fn lemma_piece_start(p: Seq<u8>, lo: int, end: int, verbatim: bool)
    requires
        0 <= lo <= end <= p.len(),
    ensures
        lo <= piece_start(p, lo, end, verbatim) <= end,
        piece_start(p, lo, end, verbatim) > lo ==> is_sep_in(
            p[piece_start(p, lo, end, verbatim) - 1],
            verbatim,
        ),
        forall|i: int|
            piece_start(p, lo, end, verbatim) <= i < end ==> !is_sep_in(#[trigger] p[i], verbatim),
    decreases end - lo,
{
    if end > lo && !is_sep_in(p[end - 1], verbatim) {
        lemma_piece_start(p, lo, end - 1, verbatim);
    }
}

/// What removing the last component of a path gives.
pub enum Parent {
    /// The last component was a name; the parent is the first `n` bytes.
    Removed(nat),
    /// Only the prefix and root are left: there is nothing to remove.
    AtRoot,
    /// The last component is `.` or `..`, or the path is a bare drive, so
    /// its parent cannot be known without the file system.
    Unknown,
}

/// The parent of `p`.
pub open spec fn parent_of(p: Seq<u8>) -> Parent {
    let v = is_verbatim_path(p);
    let bs = body_start(p);
    let e = trim_back(p, bs, p.len() as int, v);
    if e <= bs {
        if has_root(p) {
            Parent::AtRoot
        } else {
            Parent::Unknown
        }
    } else {
        let s = piece_start(p, bs, e, v);
        if is_dot(p, s, e) || is_dot_dot(p, s, e) {
            Parent::Unknown
        } else if s <= bs {
            Parent::Removed(bs as nat)
        } else {
            Parent::Removed(trim_back(p, bs, s - 1, v) as nat)
        }
    }
}

pub proof fn lemma_body_start(p: Seq<u8>)
    ensures
        0 <= prefix_len(p) <= body_start(p) <= p.len(),
{
    lemma_prefix_len(p);
}

/// A removed component leaves a strictly shorter path that keeps the prefix
/// and the root.
pub proof fn lemma_parent_removed(p: Seq<u8>)
    ensures
        parent_of(p) matches Parent::Removed(n) ==> body_start(p) <= n < p.len(),
{
    lemma_body_start(p);
    let v = is_verbatim_path(p);
    let bs = body_start(p);
    lemma_trim_back(p, bs, p.len() as int, v);
    let e = trim_back(p, bs, p.len() as int, v);
    if e > bs {
        lemma_piece_start(p, bs, e, v);
        let s = piece_start(p, bs, e, v);
        if s > bs {
            lemma_trim_back(p, bs, s - 1, v);
        }
    }
}

/// Finds where the body of `path` starts, and whether it is verbatim.
pub fn body_start_of(path: &[u8]) -> (r: (usize, bool))
    ensures
        r.0 == body_start(path@),
        r.1 == is_verbatim_path(path@),
{
    proof {
        lemma_prefix_len(path@);
    }
    let (n, v) = match crate::prefix::parse_prefix(path) {
        Some((k, n)) => (n, k.is_verbatim()),
        None => (0, false),
    };
    if n < path.len() && (path[n] == SEPARATOR || path[n] == ALT_SEPARATOR) {
        (n + 1, v)
    } else {
        (n, v)
    }
}

/// Computes `trim_back`.
pub fn trim_end(path: &[u8], lo: usize, end: usize, verbatim: bool) -> (r: usize)
    requires
        lo <= end <= path@.len(),
    ensures
        r == trim_back(path@, lo as int, end as int, verbatim),
{
    let mut e: usize = end;
    loop
        invariant
            lo <= e <= end <= path@.len(),
            trim_back(path@, lo as int, e as int, verbatim) == trim_back(
                path@,
                lo as int,
                end as int,
                verbatim,
            ),
        decreases e,
    {
        if e <= lo {
            return lo;
        }
        let b = path[e - 1];
        if b == SEPARATOR || (!verbatim && b == ALT_SEPARATOR) {
            e = e - 1;
        } else if !verbatim && b == 0x2e && (e - 1 == lo || path[e - 2] == SEPARATOR || path[e
            - 2] == ALT_SEPARATOR) {
            if e - 1 == lo {
                return lo;
            }
            e = e - 2;
        } else {
            return e;
        }
    }
}

/// Computes `piece_start`.
pub fn start_of_piece(path: &[u8], lo: usize, end: usize, verbatim: bool) -> (r: usize)
    requires
        lo <= end <= path@.len(),
    ensures
        r == piece_start(path@, lo as int, end as int, verbatim),
{
    let mut e: usize = end;
    while e > lo
        invariant
            lo <= e <= end <= path@.len(),
            piece_start(path@, lo as int, e as int, verbatim) == piece_start(
                path@,
                lo as int,
                end as int,
                verbatim,
            ),
        decreases e,
    {
        let b = path[e - 1];
        if b == SEPARATOR || (!verbatim && b == ALT_SEPARATOR) {
            return e;
        }
        e = e - 1;
    }
    lo
}

/// One component of a path, as the Windows path rules parse it.
#[derive(Clone, Debug, PartialEq, Eq)]
pub enum Component {
    /// The prefix, with its kind and the names it holds: the server and
    /// share of a UNC prefix, the text after the marker of a verbatim or
    /// device prefix, nothing for a drive.
    Prefix(Prefix, Vec<u8>, Vec<u8>),
    /// The root separator.
    RootDir,
    /// `.`, kept only at the start of a relative path or in a verbatim one.
    CurDir,
    /// `..`
    ParentDir,
    /// A name.
    Normal(Vec<u8>),
}

/// A component as values.
pub enum ComponentView {
    Prefix(Prefix, Seq<u8>, Seq<u8>),
    RootDir,
    CurDir,
    ParentDir,
    Normal(Seq<u8>),
}

impl View for Component {
    type V = ComponentView;

    open spec fn view(&self) -> ComponentView {
        match self {
            Component::Prefix(k, a, b) => ComponentView::Prefix(*k, a@, b@),
            Component::RootDir => ComponentView::RootDir,
            Component::CurDir => ComponentView::CurDir,
            Component::ParentDir => ComponentView::ParentDir,
            Component::Normal(n) => ComponentView::Normal(n@),
        }
    }
}

/// The names that the prefix of `p` holds.
pub open spec fn prefix_names(p: Seq<u8>) -> (Seq<u8>, Seq<u8>) {
    let n = prefix_len(p);
    match prefix_of(p) {
        Some(Prefix::Verbatim) => (p.subrange(4, n), Seq::empty()),
        Some(Prefix::DeviceNs) => (p.subrange(4, n), Seq::empty()),
        Some(Prefix::VerbatimUnc) => {
            let se = sep_index(p, 8, true);
            (p.subrange(8, se), if se < n {
                p.subrange(se + 1, n)
            } else {
                Seq::empty()
            })
        },
        Some(Prefix::Unc) => {
            let se = sep_index(p, 2, false);
            (p.subrange(2, se), p.subrange(se + 1, n))
        },
        _ => (Seq::empty(), Seq::empty()),
    }
}

/// The components of the body of `p` from `pos`. Empty pieces are left
/// out, and so are `.` pieces, except in a verbatim path or where
/// `lead_dot` keeps the first one.
pub open spec fn body_components(p: Seq<u8>, pos: int, verbatim: bool, lead_dot: bool) -> Seq<
    ComponentView,
>
    decreases p.len() + 1 - pos,
{
    if pos < 0 || pos >= p.len() {
        Seq::empty()
    } else {
        let e = sep_index(p, pos, verbatim);
        proof {
            crate::separators::lemma_sep_index(p, pos, verbatim);
        }
        let rest = body_components(p, e + 1, verbatim, false);
        if e == pos {
            rest
        } else if is_dot(p, pos, e) {
            if verbatim || lead_dot {
                seq![ComponentView::CurDir] + rest
            } else {
                rest
            }
        } else if is_dot_dot(p, pos, e) {
            seq![ComponentView::ParentDir] + rest
        } else {
            seq![ComponentView::Normal(p.subrange(pos, e))] + rest
        }
    }
}

/// Whether `p` has a root component: a root separator, or a UNC or device
/// prefix, which stands for one.
pub open spec fn root_component(p: Seq<u8>) -> bool {
    physical_root(p) || prefix_of(p) == Some(Prefix::Unc) || prefix_of(p) == Some(
        Prefix::DeviceNs,
    )
}

/// The components of `p`, in order.
pub open spec fn components_of(p: Seq<u8>) -> Seq<ComponentView> {
    let head = match prefix_of(p) {
        Some(k) => seq![ComponentView::Prefix(k, prefix_names(p).0, prefix_names(p).1)],
        None => Seq::empty(),
    };
    let root = if root_component(p) {
        seq![ComponentView::RootDir]
    } else {
        Seq::empty()
    };
    head + root + body_components(
        p,
        body_start(p),
        is_verbatim_path(p),
        prefix_of(p) is None && !physical_root(p),
    )
}

/// A copy of `src[from..to]`.
pub fn copy_range(src: &[u8], from: usize, to: usize) -> (r: Vec<u8>)
    requires
        from <= to <= src@.len(),
    ensures
        r@ == src@.subrange(from as int, to as int),
{
    let mut v: Vec<u8> = Vec::with_capacity(to - from);
    let mut i: usize = from;
    while i < to
        invariant
            from <= i <= to <= src@.len(),
            v@ =~= src@.subrange(from as int, i as int),
        decreases to - i,
    {
        v.push(src[i]);
        i = i + 1;
    }
    v
}

/// The components of `path`, in order.
pub fn components(path: &[u8]) -> (r: Vec<Component>)
    ensures
        r@.map_values(|c: Component| c@) == components_of(path@),
{
    proof {
        lemma_prefix_len(path@);
    }
    let mut out: Vec<Component> = Vec::new();
    let parsed = crate::prefix::parse_prefix(path);
    let mut verbatim = false;
    match parsed {
        Some((k, n)) => {
            verbatim = k.is_verbatim();
            let (a, b) = match k {
                Prefix::Verbatim | Prefix::DeviceNs => {
                    proof {
                        crate::separators::lemma_sep_index(path@, 4, true);
                        crate::separators::lemma_sep_index(path@, 4, false);
                    }
                    (copy_range(path, 4, n), Vec::new())
                },
                Prefix::VerbatimUnc => {
                    proof {
                        crate::separators::lemma_sep_index(path@, 8, true);
                    }
                    let se = crate::separators::find_sep(path, 8, true);
                    if se < n {
                        (copy_range(path, 8, se), copy_range(path, se + 1, n))
                    } else {
                        (copy_range(path, 8, se), Vec::new())
                    }
                },
                Prefix::Unc => {
                    proof {
                        crate::separators::lemma_sep_index(path@, 2, false);
                        let se = sep_index(path@, 2, false);
                        crate::separators::lemma_sep_index(path@, se + 1, false);
                    }
                    let se = crate::separators::find_sep(path, 2, false);
                    (copy_range(path, 2, se), copy_range(path, se + 1, n))
                },
                _ => (Vec::new(), Vec::new()),
            };
            proof {
                assert(a@ == prefix_names(path@).0);
                assert(b@ == prefix_names(path@).1);
            }
            out.push(Component::Prefix(k, a, b));
        },
        None => {},
    }
    let (bs, _) = body_start_of(path);
    let physical = match parsed {
        Some((_, n)) => bs > n,
        None => bs > 0,
    };
    let implied = match parsed {
        Some((Prefix::Unc, _)) | Some((Prefix::DeviceNs, _)) => true,
        _ => false,
    };
    if physical || implied {
        out.push(Component::RootDir);
    }
    let ghost head = out@.map_values(|c: Component| c@);
    let lead_dot = parsed.is_none() && !physical;
    proof {
        lemma_body_start(path@);
        assert(head == components_of(path@).subrange(0, head.len() as int));
    }
    let mut pos: usize = bs;
    let mut first = lead_dot;
    while pos < path.len()
        invariant
            bs <= pos <= path@.len(),
            out@.map_values(|c: Component| c@) + body_components(path@, pos as int, verbatim, first)
                == components_of(path@),
        decreases path@.len() - pos,
    {
        let e = crate::separators::find_sep(path, pos, verbatim);
        proof {
            crate::separators::lemma_sep_index(path@, pos as int, verbatim);
        }
        let ghost before = out@.map_values(|c: Component| c@);
        if e == pos {
        } else if e - pos == 1 && path[pos] == 0x2e {
            if verbatim || first {
                out.push(Component::CurDir);
            }
        } else if e - pos == 2 && path[pos] == 0x2e && path[pos + 1] == 0x2e {
            out.push(Component::ParentDir);
        } else {
            out.push(Component::Normal(copy_range(path, pos, e)));
        }
        proof {
            let rest = body_components(path@, e + 1, verbatim, false);
            assert(out@.map_values(|c: Component| c@) + rest =~= before + body_components(
                path@,
                pos as int,
                verbatim,
                first,
            ));
        }
        first = false;
        if e >= path.len() {
            proof {
                assert(body_components(path@, e + 1, verbatim, false) =~= Seq::<ComponentView>::empty());
                assert(body_components(path@, path@.len() as int, verbatim, false) =~= Seq::<ComponentView>::empty());
            }
            pos = path.len();
        } else {
            pos = e + 1;
        }
    }
    proof {
        assert(out@.map_values(|c: Component| c@) =~= out@.map_values(|c: Component| c@) + Seq::<ComponentView>::empty());
    }
    out
}

} // verus!
