//! URL-path normalisation, page matching and the sanitising of request
//! paths into plain segments under the static root.

use vstd::prelude::*;

use crate::text::{chars_of, string_of};

verus! {

/// Unicode `White_Space` characters, as `char::is_whitespace` and
/// `str::trim` understand them.
pub open spec fn is_space(c: char) -> bool {
    ||| ('\u{09}' <= c && c <= '\u{0D}')
    ||| c == ' '
    ||| c == '\u{85}'
    ||| c == '\u{A0}'
    ||| c == '\u{1680}'
    ||| ('\u{2000}' <= c && c <= '\u{200A}')
    ||| c == '\u{2028}'
    ||| c == '\u{2029}'
    ||| c == '\u{202F}'
    ||| c == '\u{205F}'
    ||| c == '\u{3000}'
}

/// Whether `c` is Unicode white space.
pub fn is_space_char(c: char) -> (b: bool)
    ensures
        b == is_space(c),
{
    ('\u{09}' <= c && c <= '\u{0D}') || c == ' ' || c == '\u{85}' || c == '\u{A0}'
        || c == '\u{1680}' || ('\u{2000}' <= c && c <= '\u{200A}') || c == '\u{2028}'
        || c == '\u{2029}' || c == '\u{202F}' || c == '\u{205F}' || c == '\u{3000}'
}

/// `s` without its leading white space.
pub open spec fn trim_start(s: Seq<char>) -> Seq<char>
    decreases s.len(),
{
    if s.len() > 0 && is_space(s[0]) {
        trim_start(s.drop_first())
    } else {
        s
    }
}

/// `s` without its trailing white space.
pub open spec fn trim_end(s: Seq<char>) -> Seq<char>
    decreases s.len(),
{
    if s.len() > 0 && is_space(s.last()) {
        trim_end(s.drop_last())
    } else {
        s
    }
}

/// `s` without leading and trailing white space (`str::trim`).
pub open spec fn trim(s: Seq<char>) -> Seq<char> {
    trim_end(trim_start(s))
}

/// `s` without its trailing slashes, keeping at least one character.
pub open spec fn strip_trailing_slashes(s: Seq<char>) -> Seq<char>
    decreases s.len(),
{
    if s.len() > 1 && s.last() == '/' {
        strip_trailing_slashes(s.drop_last())
    } else {
        s
    }
}

/// The normal form of a URL path: trimmed, with exactly one leading slash
/// added where it lacks one, and no trailing slashes; blank input and a lone
/// slash both become `/`.
pub open spec fn normalized(input: Seq<char>) -> Seq<char> {
    let t = trim(input);
    if t.len() == 0 || t == seq!['/'] {
        seq!['/']
    } else if t[0] == '/' {
        strip_trailing_slashes(t)
    } else {
        strip_trailing_slashes(seq!['/'] + t)
    }
}

/// The bounds `(a, b)` of `trim(s@)` inside `s`.
fn trimmed_bounds(s: &Vec<char>) -> (r: (usize, usize))
    ensures
        r.0 <= r.1 <= s@.len(),
        s@.subrange(r.0 as int, r.1 as int) == trim(s@),
{
    let n = s.len();
    let mut a: usize = 0;
    assert(s@.skip(0) =~= s@);
    while a < n && is_space_char(s[a])
        invariant
            n == s@.len(),
            a <= n,
            trim_start(s@) == trim_start(s@.skip(a as int)),
        decreases n - a,
    {
        assert(s@.skip(a as int).drop_first() =~= s@.skip(a + 1));
        a = a + 1;
    }
    let ghost t = s@.skip(a as int);
    assert(trim_start(s@) == t);
    let mut b: usize = n;
    while b > a && is_space_char(s[b - 1])
        invariant
            n == s@.len(),
            a <= b <= n,
            t == s@.skip(a as int),
            trim_end(t) == trim_end(s@.subrange(a as int, b as int)),
        decreases b - a,
    {
        assert(s@.subrange(a as int, b as int).drop_last() =~= s@.subrange(a as int, b - 1));
        b = b - 1;
    }
    assert(s@.skip(a as int) =~= s@.subrange(a as int, n as int));
    (a, b)
}

/// The normal form of a URL path (see `normalized`).
pub fn normalize_url_like(input: &str) -> (r: String)
    ensures
        r@ == normalized(input@),
{
    let cs = chars_of(input);
    let (a, b) = trimmed_bounds(&cs);
    let ghost t = trim(input@);
    if b == a || (b - a == 1 && cs[a] == '/') {
        assert(b - a == 1 ==> t =~= seq!['/']);
        let mut out: Vec<char> = Vec::new();
        out.push('/');
        return string_of(&out);
    }
    assert(t.len() == b - a);
    assert(t[0] == cs@[a as int]);
    assert(t != seq!['/']);
    let mut out: Vec<char> = Vec::new();
    if cs[a] != '/' {
        out.push('/');
    }
    let ghost prefix = out@;
    let mut k: usize = a;
    while k < b
        invariant
            a <= k <= b <= cs@.len(),
            out@ == prefix + cs@.subrange(a as int, k as int),
        decreases b - k,
    {
        out.push(cs[k]);
        assert(prefix + cs@.subrange(a as int, k + 1) =~= (prefix + cs@.subrange(a as int, k as int)).push(cs@[k as int]));
        k = k + 1;
    }
    let ghost full = out@;
    assert(cs@[a as int] == '/' ==> full =~= t);
    assert(cs@[a as int] != '/' ==> full =~= seq!['/'] + t);
    while out.len() > 1 && out[out.len() - 1] == '/'
        invariant
            strip_trailing_slashes(full) == strip_trailing_slashes(out@),
        decreases out@.len(),
    {
        let ghost before = out@;
        out.pop();
        assert(out@ =~= before.drop_last());
    }
    string_of(&out)
}

/// Two URL paths name the same page when their normal forms are equal.
pub open spec fn same_page(a: Seq<char>, b: Seq<char>) -> bool {
    normalized(a) == normalized(b)
}

/// Whether two URL paths name the same page (see `same_page`).
pub fn path_matches_page(path: &str, page: &str) -> (b: bool)
    ensures
        b == same_page(path@, page@),
        b == (normalized(path@) == normalized(page@)),
{
    let normalized_path = normalize_url_like(path);
    let normalized_page = normalize_url_like(page);
    normalized_path == normalized_page
}


/// `s` without its leading slashes.
pub open spec fn strip_leading_slashes(s: Seq<char>) -> Seq<char>
    decreases s.len(),
{
    if s.len() > 0 && s[0] == '/' {
        strip_leading_slashes(s.drop_first())
    } else {
        s
    }
}

/// The pieces of `s` between slashes, empty pieces included: a string with
/// `k` slashes has `k + 1` pieces.
pub open spec fn split_slash(s: Seq<char>) -> Seq<Seq<char>>
    decreases s.len(),
{
    if s.len() == 0 {
        seq![Seq::empty()]
    } else {
        let init = split_slash(s.drop_last());
        if s.last() == '/' {
            init.push(Seq::empty())
        } else {
            init.update(init.len() - 1, init.last().push(s.last()))
        }
    }
}

/// The parent-directory piece `..`.
pub open spec fn is_parent(p: Seq<char>) -> bool {
    p == seq!['.', '.']
}

/// A piece that names something: neither empty nor the current directory `.`.
pub open spec fn is_named(p: Seq<char>) -> bool {
    p.len() > 0 && p != seq!['.']
}

/// Whether no piece of `parts` is `..`.
pub open spec fn parent_free(parts: Seq<Seq<char>>) -> bool {
    forall|i: int| 0 <= i < parts.len() ==> !is_parent(#[trigger] parts[i])
}

/// The named pieces of `parts`, in order.
pub open spec fn named_parts(parts: Seq<Seq<char>>) -> Seq<Seq<char>>
    decreases parts.len(),
{
    if parts.len() == 0 {
        Seq::empty()
    } else if is_named(parts.last()) {
        named_parts(parts.drop_last()).push(parts.last())
    } else {
        named_parts(parts.drop_last())
    }
}

/// The segments under the static root that a request path names, read the
/// way a Unix path's components are read: leading slashes are dropped,
/// empty and `.` components are skipped, and any `..` component refuses the
/// whole path.
pub open spec fn sanitized(input: Seq<char>) -> Option<Seq<Seq<char>>> {
    let parts = split_slash(strip_leading_slashes(input));
    if parent_free(parts) {
        Some(named_parts(parts))
    } else {
        None
    }
}

/// A segment that is safe to join under a directory: not empty, not `.` or
/// `..`, and free of slashes.
pub open spec fn plain_segment(p: Seq<char>) -> bool {
    &&& is_named(p)
    &&& !is_parent(p)
    &&& forall|i: int| 0 <= i < p.len() ==> p[i] != '/'
}

fn is_parent_piece(p: &Vec<char>) -> (b: bool)
    ensures
        b == is_parent(p@),
{
    let b = p.len() == 2 && p[0] == '.' && p[1] == '.';
    assert(b ==> p@ =~= seq!['.', '.']);
    b
}

fn is_named_piece(p: &Vec<char>) -> (b: bool)
    ensures
        b == is_named(p@),
{
    let dot = p.len() == 1 && p[0] == '.';
    assert(dot ==> p@ =~= seq!['.']);
    p.len() > 0 && !dot
}

/// The segments of a request path under the static root, or `None` where
/// the path climbs out through a `..` component (see `sanitized`).
pub fn sanitize_relative_path(input: &str) -> (r: Option<Vec<String>>)
    ensures
        r.deep_view() == sanitized(input@),
{
    let cs = chars_of(input);
    let n = cs.len();
    let mut i: usize = 0;
    assert(cs@.skip(0) =~= cs@);
    while i < n && cs[i] == '/'
        invariant
            n == cs@.len(),
            i <= n,
            strip_leading_slashes(cs@) == strip_leading_slashes(cs@.skip(i as int)),
        decreases n - i,
    {
        assert(cs@.skip(i as int).drop_first() =~= cs@.skip(i + 1));
        i = i + 1;
    }
    assert(strip_leading_slashes(cs@) == cs@.skip(i as int));

    let mut kept: Vec<String> = Vec::new();
    let mut cur: Vec<char> = Vec::new();
    let mut climbs = false;
    let ghost mut done: Seq<Seq<char>> = Seq::empty();
    let mut j: usize = i;
    assert(cs@.subrange(i as int, i as int) =~= Seq::<char>::empty());
    assert(split_slash(Seq::<char>::empty()) =~= done.push(cur@));
    while j < n
        invariant
            n == cs@.len(),
            i <= j <= n,
            split_slash(cs@.subrange(i as int, j as int)) == done.push(cur@),
            kept.deep_view() == named_parts(done),
            climbs == !parent_free(done),
        decreases n - j,
    {
        let c = cs[j];
        let ghost t = cs@.subrange(i as int, j as int);
        assert(cs@.subrange(i as int, j + 1) =~= t.push(c));
        assert(t.push(c).drop_last() =~= t);
        if c == '/' {
            let ghost old_done = done;
            if is_parent_piece(&cur) {
                climbs = true;
            }
            if is_named_piece(&cur) {
                kept.push(string_of(cur.as_slice()));
            }
            proof {
                done = done.push(cur@);
                assert(done.drop_last() =~= old_done);
                assert(parent_free(done) == (parent_free(old_done) && !is_parent(cur@))) by {
                    if parent_free(done) {
                        assert(!is_parent(done[done.len() - 1]));
                    }
                    if parent_free(old_done) && !is_parent(cur@) {
                        assert forall|k: int| 0 <= k < done.len() implies !is_parent(#[trigger] done[k]) by {
                            if k < old_done.len() {
                                assert(done[k] == old_done[k]);
                            }
                        }
                    }
                }
                assert(kept.deep_view() =~= named_parts(done));
            }
            cur = Vec::new();
            assert(split_slash(t.push(c)) =~= done.push(cur@));
        } else {
            cur.push(c);
            assert(split_slash(t.push(c)) =~= done.push(cur@));
        }
        j = j + 1;
    }
    assert(cs@.subrange(i as int, n as int) =~= cs@.skip(i as int));
    let ghost parts = done.push(cur@);
    if is_parent_piece(&cur) {
        climbs = true;
    }
    if is_named_piece(&cur) {
        kept.push(string_of(cur.as_slice()));
    }
    proof {
        assert(parts.drop_last() =~= done);
        assert(kept.deep_view() =~= named_parts(parts));
        assert(parent_free(parts) == (parent_free(done) && !is_parent(cur@))) by {
            if parent_free(parts) {
                assert(!is_parent(parts[parts.len() - 1]));
            }
            if parent_free(done) && !is_parent(cur@) {
                assert forall|k: int| 0 <= k < parts.len() implies !is_parent(#[trigger] parts[k]) by {
                    if k < done.len() {
                        assert(parts[k] == done[k]);
                    }
                }
            }
        }
    }
    if climbs {
        None
    } else {
        Some(kept)
    }
}


proof fn lemma_split_slash_pieces(s: Seq<char>)
    ensures
        split_slash(s).len() >= 1,
        forall|k: int, i: int|
            0 <= k < split_slash(s).len() && 0 <= i < split_slash(s)[k].len()
                ==> split_slash(s)[k][i] != '/',
    decreases s.len(),
{
    if s.len() > 0 {
        lemma_split_slash_pieces(s.drop_last());
        let init = split_slash(s.drop_last());
        if s.last() != '/' {
            let r = split_slash(s);
            assert forall|k: int, i: int| 0 <= k < r.len() && 0 <= i < r[k].len() implies r[k][i] != '/' by {
                if k == r.len() - 1 {
                    if i < init.last().len() {
                        assert(r[k][i] == init.last()[i]);
                    }
                } else {
                    assert(r[k] == init[k]);
                }
            }
        }
    }
}

proof fn lemma_named_parts_plain(parts: Seq<Seq<char>>)
    requires
        parent_free(parts),
        forall|k: int, i: int| 0 <= k < parts.len() && 0 <= i < parts[k].len() ==> parts[k][i] != '/',
    ensures
        forall|k: int| 0 <= k < named_parts(parts).len() ==> plain_segment(#[trigger] named_parts(parts)[k]),
    decreases parts.len(),
{
    if parts.len() > 0 {
        let init = parts.drop_last();
        assert forall|k: int| 0 <= k < init.len() implies !is_parent(#[trigger] init[k]) by {
            assert(init[k] == parts[k]);
        }
        assert forall|k: int, i: int| 0 <= k < init.len() && 0 <= i < init[k].len() implies init[k][i] != '/' by {
            assert(init[k] == parts[k]);
        }
        lemma_named_parts_plain(init);
        let last = parts[parts.len() - 1];
        assert(!is_parent(last));
        assert forall|i: int| 0 <= i < last.len() implies last[i] != '/' by {
            assert(parts[parts.len() - 1][i] != '/');
        }
        let r = named_parts(parts);
        assert forall|k: int| 0 <= k < r.len() implies plain_segment(#[trigger] r[k]) by {
            if is_named(last) {
                if k < r.len() - 1 {
                    assert(r[k] == named_parts(init)[k]);
                } else {
                    assert(r[k] == last);
                }
            } else {
                assert(r[k] == named_parts(init)[k]);
            }
        }
    }
}

/// Every segment that sanitising yields is safe to join under the static
/// root: it is not empty, not `.` or `..`, and holds no slash.
pub proof fn lemma_sanitized_segments_are_plain(input: Seq<char>)
    ensures
        sanitized(input) matches Some(segs) ==> forall|k: int|
            0 <= k < segs.len() ==> plain_segment(#[trigger] segs[k]),
{
    let parts = split_slash(strip_leading_slashes(input));
    if parent_free(parts) {
        lemma_split_slash_pieces(strip_leading_slashes(input));
        lemma_named_parts_plain(parts);
    }
}

/// A leading slash does not change what a request path names under the root.
pub proof fn lemma_leading_slash_is_ignored(s: Seq<char>)
    ensures
        sanitized(seq!['/'] + s) == sanitized(s),
{
    assert((seq!['/'] + s).drop_first() =~= s);
}

proof fn lemma_strip_trailing_shape(s: Seq<char>)
    requires
        s.len() >= 1,
        s[0] == '/',
    ensures
        strip_trailing_slashes(s).len() >= 1,
        strip_trailing_slashes(s)[0] == '/',
        strip_trailing_slashes(s) == seq!['/'] || strip_trailing_slashes(s).last() != '/',
    decreases s.len(),
{
    if s.len() > 1 && s.last() == '/' {
        lemma_strip_trailing_shape(s.drop_last());
    } else if s.len() == 1 {
        assert(s =~= seq!['/']);
    }
}

/// A normalised path starts with a slash, and ends with one only when it is
/// the root `/` itself.
pub proof fn lemma_normalized_shape(input: Seq<char>)
    ensures
        normalized(input).len() >= 1,
        normalized(input)[0] == '/',
        normalized(input) == seq!['/'] || normalized(input).last() != '/',
{
    let t = trim(input);
    if t.len() == 0 || t == seq!['/'] {
    } else if t[0] == '/' {
        lemma_strip_trailing_shape(t);
    } else {
        lemma_strip_trailing_shape(seq!['/'] + t);
    }
}

proof fn lemma_trim_unchanged(s: Seq<char>)
    requires
        s.len() > 0,
        !is_space(s[0]),
        !is_space(s.last()),
    ensures
        trim(s) == s,
{
}

/// Normalising twice gives what normalising once gives, whenever the normal
/// form does not end in white space (a blank before trailing slashes, as in
/// `a /`, is exposed by the first pass and trimmed by the second).
pub proof fn lemma_normalize_idempotent(input: Seq<char>)
    requires
        !is_space(normalized(input).last()),
    ensures
        normalized(normalized(input)) == normalized(input),
{
    let n = normalized(input);
    lemma_normalized_shape(input);
    lemma_trim_unchanged(n);
    if n != seq!['/'] {
        if n.len() == 1 {
            assert(n =~= seq!['/']);
        }
    }
}

proof fn lemma_trim_start_push(s: Seq<char>, c: char)
    requires
        !is_space(c),
    ensures
        trim_start(s.push(c)) == trim_start(s).push(c),
    decreases s.len(),
{
    if s.len() == 0 {
        assert(seq![c] =~= Seq::<char>::empty().push(c));
        assert(s.push(c) =~= seq![c]);
    } else if is_space(s[0]) {
        assert(s.push(c)[0] == s[0]);
        assert(s.push(c).drop_first() =~= s.drop_first().push(c));
        lemma_trim_start_push(s.drop_first(), c);
    } else {
        assert(s.push(c)[0] == s[0]);
    }
}

proof fn lemma_trim_start_ends(s: Seq<char>)
    ensures
        trim_start(s).len() > 0 ==> !is_space(trim_start(s)[0]) && trim_start(s).last() == s.last(),
    decreases s.len(),
{
    if s.len() > 0 && is_space(s[0]) {
        lemma_trim_start_ends(s.drop_first());
    }
}

proof fn lemma_trim_end_keeps_start(x: Seq<char>)
    requires
        x.len() > 0,
        !is_space(x[0]),
    ensures
        trim_end(x).len() > 0,
    decreases x.len(),
{
    if is_space(x.last()) {
        assert(x.len() > 1);
        assert(x.drop_last()[0] == x[0]);
        lemma_trim_end_keeps_start(x.drop_last());
    }
}

/// A trailing slash does not change the normal form of a path that does
/// not end in white space (or is blank): `/about/` and `/about` name the
/// same page. (A blank before the added slash would survive trimming, as in
/// `a ` and `a /`.)
pub proof fn lemma_trailing_slash_is_ignored(s: Seq<char>)
    requires
        s.len() == 0 || !is_space(s.last()) || trim(s).len() == 0,
    ensures
        normalized(s.push('/')) == normalized(s),
{
    let t = trim_start(s);
    lemma_trim_start_push(s, '/');
    lemma_trim_start_ends(s);
    let tp = t.push('/');
    assert(trim_end(tp) == tp);
    assert(trim(s.push('/')) == tp);
    if t.len() == 0 {
        assert(tp =~= seq!['/']);
        assert(trim(s) == trim_end(t));
        assert(trim_end(t) == t);
    } else {
        lemma_trim_end_keeps_start(t);
        assert(s.len() > 0);
        assert(!is_space(s.last()));
        assert(trim(s) == t);
        assert(tp[0] == t[0]);
        assert(tp.len() >= 2);
        assert(tp != seq!['/']);
        if t[0] == '/' {
            assert(tp.drop_last() =~= t);
            if t == seq!['/'] {
                assert(strip_trailing_slashes(t) == t);
            }
        } else {
            assert((seq!['/'] + tp).drop_last() =~= seq!['/'] + t);
        }
    }
}

/// Two paths name the same page exactly when their whole normal forms are
/// equal: a path and a page whose normal forms differ anywhere, in a
/// directory segment as much as in the last one, do not match.
pub proof fn lemma_same_page_is_equal_normal_forms(a: Seq<char>, b: Seq<char>)
    ensures
        same_page(a, b) <==> normalized(a) == normalized(b),
        (exists|i: int| 0 <= i < normalized(a).len() && i < normalized(b).len() && normalized(a)[i]
            != normalized(b)[i]) ==> !same_page(a, b),
        normalized(a).len() != normalized(b).len() ==> !same_page(a, b),
{
}

/// Page matching is an equivalence: every path names the same page as
/// itself, matching is symmetric, and two paths that match a third match
/// each other; a path also names the same page as its own normal form when
/// that form has no trailing white space.
pub proof fn lemma_page_matching_is_equivalence(a: Seq<char>, b: Seq<char>, c: Seq<char>)
    ensures
        same_page(a, a),
        same_page(a, b) == same_page(b, a),
        same_page(a, b) && same_page(b, c) ==> same_page(a, c),
        !is_space(normalized(a).last()) ==> same_page(a, normalized(a)),
{
    if !is_space(normalized(a).last()) {
        lemma_normalize_idempotent(a);
    }
}


/// Segments joined by single slashes.
pub open spec fn joined(segs: Seq<Seq<char>>) -> Seq<char>
    decreases segs.len(),
{
    if segs.len() == 0 {
        Seq::empty()
    } else if segs.len() == 1 {
        segs[0]
    } else {
        joined(segs.drop_last()) + seq!['/'] + segs.last()
    }
}

proof fn lemma_split_append_plain(s: Seq<char>, b: Seq<char>)
    requires
        forall|i: int| 0 <= i < b.len() ==> b[i] != '/',
    ensures
        split_slash(s + b) == split_slash(s).update(
            split_slash(s).len() - 1,
            split_slash(s).last() + b,
        ),
    decreases b.len(),
{
    lemma_split_slash_pieces(s);
    let sp = split_slash(s);
    if b.len() == 0 {
        assert(s + b =~= s);
        assert(sp.last() + b =~= sp.last());
        assert(sp.update(sp.len() - 1, sp.last() + b) =~= sp);
    } else {
        let b0 = b.drop_last();
        assert forall|i: int| 0 <= i < b0.len() implies b0[i] != '/' by {
            assert(b0[i] == b[i]);
        }
        lemma_split_append_plain(s, b0);
        assert((s + b).drop_last() =~= s + b0);
        assert((s + b).last() == b.last());
        assert(b.last() != '/');
        lemma_split_slash_pieces(s + b0);
        let mid = split_slash(s + b0);
        assert(mid.last() =~= sp.last() + b0);
        assert(mid.last().push(b.last()) =~= sp.last() + b);
        assert(split_slash(s + b) =~= sp.update(sp.len() - 1, sp.last() + b));
    }
}

proof fn lemma_split_joined(segs: Seq<Seq<char>>)
    requires
        segs.len() >= 1,
        forall|k: int, i: int| 0 <= k < segs.len() && 0 <= i < segs[k].len() ==> segs[k][i] != '/',
    ensures
        split_slash(joined(segs)) == segs,
    decreases segs.len(),
{
    if segs.len() == 1 {
        let b = segs[0];
        assert forall|i: int| 0 <= i < b.len() implies b[i] != '/' by {
            assert(segs[0][i] != '/');
        }
        lemma_split_append_plain(Seq::empty(), b);
        assert(split_slash(Seq::<char>::empty()) =~= seq![Seq::<char>::empty()]);
        assert(Seq::<char>::empty() + b =~= b);
        assert(split_slash(b) =~= segs);
    } else {
        let init = segs.drop_last();
        assert forall|k: int, i: int| 0 <= k < init.len() && 0 <= i < init[k].len() implies init[k][i] != '/' by {
            assert(init[k] == segs[k]);
        }
        lemma_split_joined(init);
        let a = joined(init).push('/');
        let b = segs.last();
        assert forall|i: int| 0 <= i < b.len() implies b[i] != '/' by {
            assert(segs[segs.len() - 1][i] != '/');
        }
        assert(a.drop_last() =~= joined(init));
        assert(split_slash(a) == init.push(Seq::empty()));
        lemma_split_append_plain(a, b);
        assert(joined(segs) =~= a + b);
        assert(init.push(Seq::empty()).last() + b =~= b);
        assert(init.push(Seq::empty()).update(init.len() as int, b) =~= segs);
    }
}

proof fn lemma_named_parts_all_named(parts: Seq<Seq<char>>)
    requires
        forall|k: int| 0 <= k < parts.len() ==> is_named(#[trigger] parts[k]),
    ensures
        named_parts(parts) == parts,
    decreases parts.len(),
{
    if parts.len() > 0 {
        let init = parts.drop_last();
        assert forall|k: int| 0 <= k < init.len() implies is_named(#[trigger] init[k]) by {
            assert(init[k] == parts[k]);
        }
        lemma_named_parts_all_named(init);
        assert(is_named(parts[parts.len() - 1]));
        assert(init.push(parts.last()) =~= parts);
    }
}

proof fn lemma_joined_starts_with_first(segs: Seq<Seq<char>>)
    requires
        segs.len() >= 1,
        segs[0].len() >= 1,
    ensures
        joined(segs).len() >= 1,
        joined(segs)[0] == segs[0][0],
    decreases segs.len(),
{
    if segs.len() > 1 {
        let init = segs.drop_last();
        assert(init[0] == segs[0]);
        lemma_joined_starts_with_first(init);
    }
}

/// A path made of plain segments joined by slashes is served as exactly
/// those segments.
pub proof fn lemma_plain_path_round_trip(segs: Seq<Seq<char>>)
    requires
        forall|k: int| 0 <= k < segs.len() ==> plain_segment(#[trigger] segs[k]),
    ensures
        sanitized(joined(segs)) == Some(segs),
{
    if segs.len() == 0 {
        assert(strip_leading_slashes(Seq::<char>::empty()) == Seq::<char>::empty());
        let parts = split_slash(Seq::<char>::empty());
        assert(parts =~= seq![Seq::<char>::empty()]);
        assert(named_parts(parts.drop_last()) =~= Seq::<Seq<char>>::empty());
        assert(!is_named(parts.last()));
        assert(named_parts(parts) =~= segs);
        assert(parent_free(parts)) by {
            assert forall|i: int| 0 <= i < parts.len() implies !is_parent(#[trigger] parts[i]) by {
                assert(parts[i].len() == 0);
            }
        }
    } else {
        assert(plain_segment(segs[0]));
        lemma_joined_starts_with_first(segs);
        assert(segs[0][0] != '/');
        assert(strip_leading_slashes(joined(segs)) == joined(segs));
        assert forall|k: int, i: int| 0 <= k < segs.len() && 0 <= i < segs[k].len() implies segs[k][i] != '/' by {
            assert(plain_segment(segs[k]));
        }
        lemma_split_joined(segs);
        assert(parent_free(segs)) by {
            assert forall|i: int| 0 <= i < segs.len() implies !is_parent(#[trigger] segs[i]) by {
                assert(plain_segment(segs[i]));
            }
        }
        assert forall|k: int| 0 <= k < segs.len() implies is_named(#[trigger] segs[k]) by {
            assert(plain_segment(segs[k]));
        }
        lemma_named_parts_all_named(segs);
    }
}

} // verus!
