//! Laws that relate the operations of the library.
use vstd::prelude::*;
use crate::separators::{
    is_sep, sep_index, lemma_sep_index, lemma_sep_index_unique, converted, SEPARATOR,
};
use crate::prefix::{
    Prefix, prefix_of, prefix_len, is_verbatim_path, verbatim_mark, device_mark, lead_seps,
    verbatim_unc_mark, verbatim_disk_mark, unc_mark, unc_server_end, unc_share_end,
    verbatim_unc_end, drive_at, lemma_prefix_len,
};
use crate::components::{
    Parent, parent_of, physical_root, body_start, lemma_body_start, lemma_parent_removed,
    trim_back, lemma_trim_back,
};
use crate::base::with_separator;
use crate::join::{
    pushed, walk, skip_front, append_tail, keeps_trailing, lemma_verbatim_converted, with_trailing,
    rooted_on, skip_seps,
};
use crate::resolve::{prepared, Prepared, contains_nul, next_step, Step, EXTRA_CAPACITY};
use crate::error::Error;

verus! {

/// A verbatim fragment replaces any base path: the result is the fragment
/// itself, with only the separators of its first four bytes made canonical.
pub proof fn lemma_verbatim_fragment_replaces(b: Seq<u8>, f: Seq<u8>)
    requires
        prefix_of(b) is Some,
        is_verbatim_path(f),
    ensures
        pushed(b, f) == converted(f, 4),
{
    lemma_verbatim_converted(f, f.len() as int);
}

/// Where `s` and `t` agree before `n`, a separator search that ends before
/// `n` in `s` ends at the same place in `t`; one that runs to the end of
/// `s` runs to the end of `t` when `t` is `s` cut at `n`.
proof fn lemma_sep_index_cut(s: Seq<u8>, n: int, from: int, verbatim: bool)
    requires
        0 <= from <= n <= s.len(),
    ensures
        sep_index(s, from, verbatim) < n ==> sep_index(s.subrange(0, n), from, verbatim)
            == sep_index(s, from, verbatim),
        sep_index(s, from, verbatim) >= n ==> sep_index(s.subrange(0, n), from, verbatim) == n,
{
    let t = s.subrange(0, n);
    lemma_sep_index(s, from, verbatim);
    let r = sep_index(s, from, verbatim);
    if r < n {
        lemma_sep_index_unique(t, from, r, verbatim);
    } else {
        lemma_sep_index_unique(t, from, n, verbatim);
    }
}

/// Cutting a path anywhere after its body starts leaves its prefix and root
/// as they were.
pub proof fn lemma_cut_keeps_body_start(p: Seq<u8>, n: int)
    requires
        prefix_of(p) is Some,
        body_start(p) <= n <= p.len(),
    ensures
        prefix_of(p.subrange(0, n)) == prefix_of(p),
        body_start(p.subrange(0, n)) == body_start(p),
{
    lemma_prefix_len(p);
    lemma_body_start(p);
    let q = p.subrange(0, n);
    let pl = prefix_len(p);
    assert(forall|i: int| 0 <= i < n ==> q[i] == p[i]);
    if verbatim_mark(p) {
        lemma_sep_index(p, 4, true);
        assert(q[0] == p[0] && q[1] == p[1] && q[2] == p[2] && q[3] == p[3]);
        assert(verbatim_mark(q));
        if verbatim_unc_mark(p) {
            lemma_sep_index(p, 8, true);
            lemma_sep_index_cut(p, n, 8, true);
            assert(q[4] == p[4] && q[5] == p[5] && q[6] == p[6] && q[7] == p[7]);
            assert(verbatim_unc_mark(q));
            let se = sep_index(p, 8, true);
            if se < p.len() {
                lemma_sep_index(p, se + 1, true);
                if se + 1 <= n {
                    lemma_sep_index_cut(p, n, se + 1, true);
                }
            }
            assert(verbatim_unc_end(q) == verbatim_unc_end(p));
        } else if verbatim_disk_mark(p) {
            assert(q[4] == p[4] && q[5] == p[5]);
            assert(!verbatim_unc_mark(q));
            assert(verbatim_disk_mark(q));
        } else {
            lemma_sep_index_cut(p, n, 4, true);
            if n >= 8 {
                assert(q[4] == p[4] && q[5] == p[5] && q[6] == p[6] && q[7] == p[7]);
            }
            assert(!verbatim_unc_mark(q));
            if n >= 6 {
                assert(q[4] == p[4] && q[5] == p[5]);
            }
            if n >= 7 {
                assert(q[6] == p[6]);
            }
            assert(!verbatim_disk_mark(q));
        }
    } else if device_mark(p) {
        lemma_sep_index(p, 4, false);
        assert(q[0] == p[0] && q[1] == p[1] && q[2] == p[2] && q[3] == p[3]);
        assert(device_mark(q));
        assert(!verbatim_mark(q));
        lemma_sep_index_cut(p, n, 4, false);
    } else if lead_seps(p) {
        let se = unc_server_end(p);
        lemma_sep_index(p, 2, false);
        lemma_sep_index(p, se + 1, false);
        assert(q[0] == p[0] && q[1] == p[1] && q[2] == p[2] && q[3] == p[3]);
        assert(lead_seps(q));
        assert(!verbatim_mark(q));
        assert(!device_mark(q));
        lemma_sep_index_cut(p, n, 2, false);
        lemma_sep_index_cut(p, n, se + 1, false);
        assert(unc_server_end(q) == se);
        assert(unc_share_end(q) == unc_share_end(p));
        assert(unc_mark(q));
    } else {
        assert(q[0] == p[0] && q[1] == p[1]);
        assert(!lead_seps(q));
        assert(drive_at(q, 0));
    }
    assert(prefix_len(q) == pl);
    assert(physical_root(q) == physical_root(p));
}

/// The base reached by the walk keeps the prefix and root of the base it
/// started from.
proof fn lemma_walk_keeps_root(b: Seq<u8>, c: Seq<u8>, pos: int)
    requires
        prefix_of(b) is Some,
    ensures
        ({
            let b1 = walk(b, c, pos).0;
            &&& prefix_of(b1) == prefix_of(b)
            &&& body_start(b1) == body_start(b)
            &&& body_start(b) <= b1.len()
            &&& b1.subrange(0, body_start(b)) == b.subrange(0, body_start(b))
        }),
    decreases c.len() + 1 - pos,
{
    lemma_body_start(b);
    if 0 <= pos < c.len() {
        let e = sep_index(c, pos, false);
        lemma_sep_index(c, pos, false);
        if e == pos || crate::components::is_dot(c, pos, e) {
            lemma_walk_keeps_root(b, c, e + 1);
        } else if crate::components::is_dot_dot(c, pos, e) {
            match parent_of(b) {
                Parent::Removed(n) => {
                    lemma_parent_removed(b);
                    let b2 = b.subrange(0, n as int);
                    lemma_cut_keeps_body_start(b, n as int);
                    lemma_walk_keeps_root(b2, c, e + 1);
                    assert(b2.subrange(0, body_start(b)) =~= b.subrange(0, body_start(b)));
                    let b1 = walk(b2, c, e + 1).0;
                    assert(b1.subrange(0, body_start(b)) == b2.subrange(0, body_start(b)));
                },
                Parent::AtRoot => {
                    lemma_walk_keeps_root(b, c, e + 1);
                },
                Parent::Unknown => {},
            }
        }
    }
}

/// `y` starts with `x`.
pub open spec fn starts_with(y: Seq<u8>, x: Seq<u8>) -> bool {
    x.len() <= y.len() && y.subrange(0, x.len() as int) == x
}

proof fn lemma_with_separator_extends(x: Seq<u8>)
    ensures
        starts_with(with_separator(x), x),
{
    assert(with_separator(x).subrange(0, x.len() as int) =~= x);
}

proof fn lemma_concat_extends(x: Seq<u8>, z: Seq<u8>)
    ensures
        starts_with(x + z, x),
{
    assert((x + z).subrange(0, x.len() as int) =~= x);
}

proof fn lemma_starts_with_trans(z: Seq<u8>, y: Seq<u8>, x: Seq<u8>)
    requires
        starts_with(z, y),
        starts_with(y, x),
    ensures
        starts_with(z, x),
{
    assert(z.subrange(0, x.len() as int) =~= y.subrange(0, x.len() as int));
}

proof fn lemma_append_tail_extends(b: Seq<u8>, c: Seq<u8>, k: int)
    ensures
        starts_with(append_tail(b, c, k), b),
{
    let e = sep_index(c, k, false);
    let j = skip_front(c, e + 1);
    let m = trim_back(c, j, c.len() as int, false);
    let head = with_separator(b) + c.subrange(k, e);
    lemma_with_separator_extends(b);
    lemma_concat_extends(with_separator(b), c.subrange(k, e));
    lemma_starts_with_trans(head, with_separator(b), b);
    if j < m {
        lemma_with_separator_extends(head);
        lemma_concat_extends(with_separator(head), c.subrange(j, m));
        lemma_starts_with_trans(with_separator(head) + c.subrange(j, m), with_separator(head), head);
        lemma_starts_with_trans(with_separator(head) + c.subrange(j, m), head, b);
    }
}

/// A fragment with neither a prefix nor a root.
pub open spec fn is_relative(f: Seq<u8>) -> bool {
    let c = converted(f, f.len() as int);
    prefix_of(c) is None && !(c.len() > 0 && is_sep(c[0]))
}

/// However many `..` pieces a relative fragment starts with, pushing it
/// never climbs above the root: the result starts with the prefix and root
/// of the base.
pub proof fn lemma_relative_push_keeps_root(b: Seq<u8>, f: Seq<u8>)
    requires
        prefix_of(b) is Some,
        is_relative(f),
    ensures
        body_start(b) <= pushed(b, f).len(),
        pushed(b, f).subrange(0, body_start(b)) == b.subrange(0, body_start(b)),
{
    let c = converted(f, f.len() as int);
    let bs = body_start(b);
    lemma_walk_keeps_root(b, c, 0);
    let (b1, k) = walk(b, c, 0);
    let b2 = if k < c.len() {
        append_tail(b1, c, k)
    } else {
        b1
    };
    let r = if keeps_trailing(c) {
        with_separator(b2)
    } else {
        b2
    };
    assert(r == pushed(b, f));
    assert(b1.subrange(0, b1.len() as int) =~= b1);
    assert(b2.subrange(0, b2.len() as int) =~= b2);
    if k < c.len() {
        lemma_append_tail_extends(b1, c, k);
    }
    lemma_with_separator_extends(b2);
    lemma_starts_with_trans(r, b2, b1);
    lemma_body_start(b);
    assert(b1 == walk(b, c, 0).0);
    assert(bs <= b1.len());
    assert(r.subrange(0, bs) =~= r.subrange(0, b1.len() as int).subrange(0, bs));

}

/// Whether `s` ends with a separator.
pub open spec fn ends_in_sep(s: Seq<u8>) -> bool {
    s.len() > 0 && is_sep(s.last())
}

/// Whether `s` ends with a separator and `.`.
pub open spec fn ends_in_sep_dot(s: Seq<u8>) -> bool {
    s.len() >= 2 && s.last() == 0x2e && is_sep(s[s.len() - 2])
}

/// Whether the ending of `s` names a directory.
pub open spec fn names_directory(s: Seq<u8>) -> bool {
    ends_in_sep(s) || ends_in_sep_dot(s)
}

/// A fragment as it stands after separator normalization: only the first
/// four bytes of a verbatim fragment, all of any other.
pub open spec fn normalized_fragment(f: Seq<u8>) -> Seq<u8> {
    if is_verbatim_path(f) {
        converted(f, 4)
    } else {
        converted(f, f.len() as int)
    }
}

/// Whether pushing `f` replaces all of the base, or all but its prefix.
pub open spec fn replaces_base(b: Seq<u8>, f: Seq<u8>) -> bool {
    let c = converted(f, f.len() as int);
    match prefix_of(c) {
        Some(k) => k.spec_is_verbatim() || !(k is Disk && prefix_of(b) == Some(k)
            && !physical_root(c)),
        None => c.len() > 0 && is_sep(c[0]),
    }
}

/// Where the relative part of `f` starts, once its leading `.` and `..`
/// pieces are applied to `b`.
pub open spec fn first_kept_piece(b: Seq<u8>, f: Seq<u8>) -> int {
    let c = converted(f, f.len() as int);
    walk(
        b,
        c,
        if prefix_of(c) is Some {
            2
        } else {
            0
        },
    ).1
}

/// A bare drive, such as `X:`.
pub open spec fn bare_drive(p: Seq<u8>) -> bool {
    prefix_of(p) matches Some(Prefix::Disk(_)) && prefix_len(p) == p.len()
}

/// A fully converted path holds `\` as its only separator.
proof fn lemma_converted_canonical(f: Seq<u8>)
    ensures
        ({
            let c = converted(f, f.len() as int);
            &&& forall|i: int| 0 <= i < c.len() ==> (is_sep(#[trigger] c[i]) <==> c[i] == SEPARATOR)
            &&& names_directory(c) == keeps_trailing(c)
        }),
{
}

/// Adding a separator leaves a path that ends with one, unless the path is
/// a bare drive, which stays as it is.
proof fn lemma_with_separator_ends(r: Seq<u8>)
    requires
        r.len() > 0,
    ensures
        ends_in_sep(with_separator(r)) || (bare_drive(r) && with_separator(r) == r),
{
}

/// A bare drive is two bytes long and ends with `:`.
proof fn lemma_bare_drive(p: Seq<u8>)
    requires
        bare_drive(p),
    ensures
        p.len() == 2 && p.last() == 0x3a,
{
}

proof fn lemma_skip_seps(c: Seq<u8>, i: int)
    requires
        0 <= i <= c.len(),
    ensures
        i <= skip_seps(c, i) <= c.len(),
        forall|j: int| i <= j < skip_seps(c, i) ==> is_sep(#[trigger] c[j]),
    decreases c.len() - i,
{
    if i < c.len() && is_sep(c[i]) {
        lemma_skip_seps(c, i + 1);
    }
}

/// What the base path and the walk give, and what follows: the base
/// reached keeps its prefix, and where the walk stops at a piece, the
/// appended tail ends with that fragment's last name.
proof fn lemma_walk_result(b: Seq<u8>, c: Seq<u8>, start: int)
    requires
        prefix_of(b) is Some,
        0 <= start,
    ensures
        walk(b, c, start).0.len() >= 2,
        0 <= walk(b, c, start).1 <= c.len(),
        walk(b, c, start).1 < c.len() ==> ({
            let b2 = append_tail(walk(b, c, start).0, c, walk(b, c, start).1);
            b2.len() >= 3 && !is_sep(b2.last())
        }),
{
    let (b1, k) = walk(b, c, start);
    lemma_walk_keeps_root(b, c, start);
    lemma_prefix_len(b1);
    lemma_walk_bounds(b, c, start);
    if k < c.len() {
        let e = sep_index(c, k, false);
        lemma_sep_index(c, k, false);
        lemma_kept_piece_named(b, c, start);
        let j = skip_front(c, e + 1);
        lemma_skip_front_bounds(c, e + 1);
        let m = trim_back(c, j, c.len() as int, false);
        lemma_trim_back(c, j, c.len() as int, false);
        let head = with_separator(b1) + c.subrange(k, e);
        assert(head.last() == c[e - 1]);
        let b2 = append_tail(b1, c, k);
        if j < m {
            assert(b2.last() == c[m - 1]);
        }
    }
}

/// A trailing separator of a fragment is never lost: when the normalized
/// fragment ends with a separator, or with a separator and `.`, so does the
/// result, unless the result is a bare drive (`C:` with `.\` pushed on it).
/// A verbatim fragment that ends with a separator and `.` is left out: it
/// is kept exactly as written.
pub proof fn lemma_trailing_separator_kept(b: Seq<u8>, f: Seq<u8>)
    requires
        prefix_of(b) is Some,
        names_directory(normalized_fragment(f)),
        !(is_verbatim_path(f) && ends_in_sep_dot(normalized_fragment(f))),
        !bare_drive(pushed(b, f)),
    ensures
        ends_in_sep(pushed(b, f)),
{
    let c = converted(f, f.len() as int);
    lemma_verbatim_converted(f, f.len() as int);
    lemma_converted_canonical(f);
    lemma_prefix_len(b);
    if !is_verbatim_path(f) {
        let r = match prefix_of(c) {
            Some(k) => if k is Disk && prefix_of(b) == Some(k) && !physical_root(c) {
                let (b1, k) = walk(b, c, 2);
                if k < c.len() {
                    append_tail(b1, c, k)
                } else {
                    b1
                }
            } else {
                c
            },
            None => if c.len() > 0 && is_sep(c[0]) {
                rooted_on(b, c)
            } else {
                let (b1, k) = walk(b, c, 0);
                if k < c.len() {
                    append_tail(b1, c, k)
                } else {
                    b1
                }
            },
        };
        assert(pushed(b, f) == with_separator(r));
        lemma_walk_result(b, c, 0);
        lemma_walk_result(b, c, 2);
        lemma_with_separator_ends(r);
    }
}

/// The trailing-separator law: the result ends with a separator exactly
/// when the normalized fragment ends with a separator, or with a separator
/// and `.`. It is stated for fragments that replace the base and for those
/// that leave a name to append; a fragment made only of `.` and `..`
/// pieces leaves the base's own ending (`..` onto `X:\ABC` gives `X:\`).
/// A verbatim fragment that ends with a separator and `.` is left out: it
/// is kept exactly as written.
pub proof fn lemma_trailing_separator(b: Seq<u8>, f: Seq<u8>)
    requires
        prefix_of(b) is Some,
        !(is_verbatim_path(f) && ends_in_sep_dot(normalized_fragment(f))),
        replaces_base(b, f) || first_kept_piece(b, f) < f.len(),
    ensures
        ends_in_sep(pushed(b, f)) == names_directory(normalized_fragment(f)),
{
    let c = converted(f, f.len() as int);
    lemma_verbatim_converted(f, f.len() as int);
    lemma_converted_canonical(f);
    lemma_prefix_len(b);
    if !is_verbatim_path(f) {
        lemma_walk_result(b, c, 0);
        lemma_walk_result(b, c, 2);
        let r = match prefix_of(c) {
            Some(k) => if k is Disk && prefix_of(b) == Some(k) && !physical_root(c) {
                append_tail(walk(b, c, 2).0, c, walk(b, c, 2).1)
            } else {
                c
            },
            None => if c.len() > 0 && is_sep(c[0]) {
                rooted_on(b, c)
            } else {
                append_tail(walk(b, c, 0).0, c, walk(b, c, 0).1)
            },
        };
        assert(pushed(b, f) == with_trailing(c, r));
        assert(r.len() > 0);
        if prefix_of(c) is None && c.len() > 0 && is_sep(c[0]) {
            lemma_skip_seps(c, 0);
            let rest = c.subrange(skip_seps(c, 0), c.len() as int);
            if rest.len() > 0 {
                assert(r.last() == c.last());
            } else {
                assert(is_sep(c[c.len() - 1]));
            }
            assert(r.len() >= 3);
        }
        if keeps_trailing(c) {
            if bare_drive(r) {
                lemma_bare_drive(r);
            }
            lemma_with_separator_ends(r);
        }
    }
}

proof fn lemma_skip_front_bounds(c: Seq<u8>, pos: int)
    ensures
        pos <= skip_front(c, pos) || skip_front(c, pos) == c.len(),
        0 <= pos ==> 0 <= skip_front(c, pos) <= c.len(),
    decreases c.len() + 1 - pos,
{
    if 0 <= pos < c.len() {
        lemma_sep_index(c, pos, false);
        let e = sep_index(c, pos, false);
        if e == pos || crate::components::is_dot(c, pos, e) {
            lemma_skip_front_bounds(c, e + 1);
        }
    }
}

proof fn lemma_walk_bounds(b: Seq<u8>, c: Seq<u8>, pos: int)
    ensures
        0 <= pos ==> 0 <= walk(b, c, pos).1 <= c.len(),
    decreases c.len() + 1 - pos,
{
    if 0 <= pos < c.len() {
        lemma_sep_index(c, pos, false);
        let e = sep_index(c, pos, false);
        if e == pos || crate::components::is_dot(c, pos, e) {
            lemma_walk_bounds(b, c, e + 1);
        } else if crate::components::is_dot_dot(c, pos, e) {
            match parent_of(b) {
                Parent::Removed(n) => lemma_walk_bounds(b.subrange(0, n as int), c, e + 1),
                Parent::AtRoot => lemma_walk_bounds(b, c, e + 1),
                Parent::Unknown => {},
            }
        }
    }
}

/// The piece where the walk stops is never empty.
proof fn lemma_kept_piece_named(b: Seq<u8>, c: Seq<u8>, pos: int)
    requires
        0 <= pos,
    ensures
        walk(b, c, pos).1 < c.len() ==> sep_index(c, walk(b, c, pos).1, false) > walk(
            b,
            c,
            pos,
        ).1,
    decreases c.len() + 1 - pos,
{
    if 0 <= pos < c.len() {
        lemma_sep_index(c, pos, false);
        let e = sep_index(c, pos, false);
        if e == pos || crate::components::is_dot(c, pos, e) {
            lemma_kept_piece_named(b, c, e + 1);
        } else if crate::components::is_dot_dot(c, pos, e) {
            match parent_of(b) {
                Parent::Removed(n) => lemma_kept_piece_named(b.subrange(0, n as int), c, e + 1),
                Parent::AtRoot => lemma_kept_piece_named(b, c, e + 1),
                Parent::Unknown => {},
            }
        }
    }
}

/// Normalizing a verbatim path gives it back with its marker made
/// canonical, and normalizing that result gives it back unchanged.
pub proof fn lemma_normalize_verbatim_idempotent(p: Seq<u8>)
    requires
        !contains_nul(p),
        is_verbatim_path(p),
    ensures
        prepared(p) == Ok::<Prepared, Error>(Prepared::Ready(converted(p, 4))),
        prepared(converted(p, 4)) == Ok::<Prepared, Error>(Prepared::Ready(converted(p, 4))),
{
    let q = converted(p, 4);
    lemma_verbatim_converted(p, p.len() as int);
    lemma_verbatim_converted(p, 4);
    lemma_verbatim_converted(q, q.len() as int);
    assert(converted(q, 4) =~= q);
    assert(!contains_nul(q)) by {
        if contains_nul(q) {
            let i = choose|i: int| 0 <= i < q.len() && q[i] == 0;
            assert(p[i] == 0);
        }
    }
}

/// The bytes handed to the platform are a fixed point: normalizing them
/// again hands the platform the very same bytes.
pub proof fn lemma_expand_request_stable(p: Seq<u8>)
    requires
        prepared(p) is Ok,
        prepared(p)->Ok_0 is Expand,
    ensures
        prepared(converted(p, p.len() as int)) == prepared(p),
{
    let c = converted(p, p.len() as int);
    assert(converted(c, c.len() as int) =~= c);
    assert(!contains_nul(c)) by {
        if contains_nul(c) {
            let i = choose|i: int| 0 <= i < c.len() && c[i] == 0;
            assert(p[i] == 0);
        }
    }
}

/// A call for a path whose full form is `full` units long asks for
/// `full + 1` units (room for the NUL) while the buffer is smaller, and
/// writes the path once it fits. Against such a call the protocol never
/// keeps a truncated result: the first call, with an empty buffer, grows
/// the buffer past the length asked for, and any capacity of at least
/// `full + 1` ends the protocol with exactly `full` units, however long the
/// path is.
pub proof fn lemma_growth_settles(full: u32, capacity: u32)
    requires
        1 <= full,
        full as int + 1 + EXTRA_CAPACITY as int <= u32::MAX as int,
    ensures
        next_step(0, (full + 1) as u32) == Ok::<Step, Error>(
            Step::Retry((full + 1 + EXTRA_CAPACITY) as u32),
        ),
        capacity > full ==> next_step(capacity, full) == Ok::<Step, Error>(
            Step::Done(full as usize),
        ),
        capacity <= full ==> (next_step(capacity, (full + 1) as u32) matches Ok(Step::Retry(n))
            && n > full),
{
}

} // verus!
