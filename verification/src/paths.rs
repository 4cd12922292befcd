//! Path-string utilities: separator mapping, joining, parents, prefixes, and
//! the syntactic normalizer.
//!
//! Paths are handled purely as character strings; nothing here touches the
//! file system. The canonical separator is the forward slash.

use vstd::prelude::*;

verus! {

/// Maps a backslash to a forward slash and leaves every other character as is.
pub open spec fn fwd_char(c: char) -> char {
    if c == '\\' {
        '/'
    } else {
        c
    }
}

/// The string with every backslash replaced by a forward slash.
pub open spec fn fwd_slashes(s: Seq<char>) -> Seq<char> {
    s.map_values(|c: char| fwd_char(c))
}

/// Collects the characters of a string slice into a vector.
pub fn chars_of(s: &str) -> (v: Vec<char>)
    ensures
        v@ == s@,
{
    let len = s.unicode_len();
    let mut v: Vec<char> = Vec::new();
    let mut i: usize = 0;
    while i < len
        invariant
            i <= len,
            len == s@.len(),
            v@ == s@.take(i as int),
        decreases len - i,
    {
        let c = s.get_char(i);
        v.push(c);
        proof {
            assert(s@.take(i + 1 as int) =~= s@.take(i as int).push(s@[i as int]));
        }
        i += 1;
    }
    proof {
        assert(s@.take(len as int) =~= s@);
    }
    v
}

/// Relies on `String: FromIterator<char>`: collecting characters yields the
/// string holding exactly those characters in order.
#[verifier::external_body]
pub fn string_of(v: &Vec<char>) -> (s: String)
    ensures
        s@ == v@,
{
    v.iter().collect()
}

/// Character-wise equality of two string slices.
pub fn str_eq(a: &str, b: &str) -> (r: bool)
    ensures
        r == (a@ == b@),
{
    let alen = a.unicode_len();
    let blen = b.unicode_len();
    if alen != blen {
        proof {
            assert(a@ != b@);
        }
        return false;
    }
    let mut i: usize = 0;
    while i < alen
        invariant
            i <= alen,
            alen == a@.len(),
            alen == b@.len(),
            forall|j: int| 0 <= j < i ==> a@[j] == b@[j],
        decreases alen - i,
    {
        if a.get_char(i) != b.get_char(i) {
            proof {
                assert(a@[i as int] != b@[i as int]);
            }
            return false;
        }
        i += 1;
    }
    proof {
        assert(a@ =~= b@);
    }
    true
}

/// Whether `p` is a prefix of `s`, character for character.
pub fn str_starts_with(s: &str, p: &str) -> (r: bool)
    ensures
        r == p@.is_prefix_of(s@),
{
    let slen = s.unicode_len();
    let plen = p.unicode_len();
    if plen > slen {
        return false;
    }
    let mut i: usize = 0;
    while i < plen
        invariant
            i <= plen,
            plen <= slen,
            slen == s@.len(),
            plen == p@.len(),
            forall|j: int| 0 <= j < i ==> s@[j] == p@[j],
        decreases plen - i,
    {
        if s.get_char(i) != p.get_char(i) {
            proof {
                assert(s@[i as int] != p@[i as int]);
            }
            return false;
        }
        i += 1;
    }
    proof {
        assert(p@ =~= s@.take(plen as int));
    }
    true
}

/// Replaces every backslash in the string by a forward slash.
pub fn to_forward_slashes(s: &str) -> (r: String)
    ensures
        r@ == fwd_slashes(s@),
{
    let cs = chars_of(s);
    let mut out: Vec<char> = Vec::new();
    let mut i: usize = 0;
    while i < cs.len()
        invariant
            i <= cs@.len(),
            cs@ == s@,
            out@ == fwd_slashes(s@.take(i as int)),
        decreases cs@.len() - i,
    {
        let c = cs[i];
        if c == '\\' {
            out.push('/');
        } else {
            out.push(c);
        }
        proof {
            assert(fwd_slashes(s@.take(i + 1 as int)) =~= fwd_slashes(s@.take(i as int)).push(
                fwd_char(s@[i as int]),
            ));
        }
        i += 1;
    }
    proof {
        assert(s@.take(cs@.len() as int) =~= s@);
    }
    string_of(&out)
}

/// Joins a directory and a child name with a forward slash.
pub fn join_path(base: &str, child: &str) -> (r: String)
    ensures
        r@ == base@ + seq!['/'] + child@,
{
    let mut out = chars_of(base);
    out.push('/');
    let tail = chars_of(child);
    let mut i: usize = 0;
    while i < tail.len()
        invariant
            i <= tail@.len(),
            tail@ == child@,
            out@ == base@ + seq!['/'] + child@.take(i as int),
        decreases tail@.len() - i,
    {
        out.push(tail[i]);
        proof {
            assert(base@ + seq!['/'] + child@.take(i + 1 as int) =~= (base@ + seq![
                '/',
            ] + child@.take(i as int)).push(child@[i as int]));
        }
        i += 1;
    }
    proof {
        assert(child@.take(tail@.len() as int) =~= child@);
    }
    string_of(&out)
}

/// Index of the last forward slash in the string, or -1 if there is none.
pub open spec fn last_slash(s: Seq<char>) -> int
    decreases s.len(),
{
    if s.len() == 0 {
        -1
    } else if s.last() == '/' {
        s.len() - 1
    } else {
        last_slash(s.drop_last())
    }
}

/// The parent directory of a path string: everything before the last slash.
/// The root has no parent, and neither has a path without a separator.
pub open spec fn spec_parent(s: Seq<char>) -> Option<Seq<char>> {
    if s == seq!['/'] {
        None
    } else {
        let i = last_slash(s);
        if i < 0 {
            None
        } else if i == 0 {
            Some(seq!['/'])
        } else {
            Some(s.take(i))
        }
    }
}

/// The parent directory of a path, as `spec_parent` describes it.
pub fn parent_path(s: &str) -> (r: Option<String>)
    ensures
        r.deep_view() == spec_parent(s@),
{
    let cs = chars_of(s);
    if cs.len() == 1 && cs[0] == '/' {
        proof {
            assert(s@ =~= seq!['/']);
        }
        return None;
    }
    proof {
        assert(s@ != seq!['/']);
        assert(s@.take(cs@.len() as int) =~= s@);
    }
    let mut i: usize = cs.len();
    while i > 0
        invariant
            i <= cs@.len(),
            cs@ == s@,
            s@ != seq!['/'],
            last_slash(s@) == last_slash(s@.take(i as int)),
        decreases i,
    {
        proof {
            assert(s@.take(i as int).last() == s@[i - 1]);
            assert(s@.take(i as int).drop_last() =~= s@.take(i - 1));
        }
        if cs[i - 1] == '/' {
            proof {
                assert(last_slash(s@) == i - 1);
            }
            if i == 1 {
                let mut root: Vec<char> = Vec::new();
                root.push('/');
                let r = string_of(&root);
                proof {
                    assert(r@ =~= seq!['/']);
                }
                return Some(r);
            }
            let mut out: Vec<char> = Vec::new();
            let mut j: usize = 0;
            while j < i - 1
                invariant
                    j <= i - 1,
                    i <= cs@.len(),
                    cs@ == s@,
                    out@ == s@.take(j as int),
                decreases i - 1 - j,
            {
                out.push(cs[j]);
                proof {
                    assert(s@.take(j + 1 as int) =~= s@.take(j as int).push(s@[j as int]));
                }
                j += 1;
            }
            return Some(string_of(&out));
        }
        i -= 1;
    }
    proof {
        assert(s@.take(0) =~= Seq::<char>::empty());
        assert(last_slash(s@) == -1);
    }
    None
}

/// The final path segment: the characters after the last slash, the whole
/// string if it has no slash, and nothing if the string ends in a slash or
/// is empty.
pub open spec fn spec_last_segment(s: Seq<char>) -> Option<Seq<char>> {
    let i = last_slash(s);
    if s.len() == 0 || i == s.len() - 1 {
        None
    } else if i < 0 {
        Some(s)
    } else {
        Some(s.skip(i + 1))
    }
}

/// The final path segment, as `spec_last_segment` describes it.
pub fn last_segment(s: &str) -> (r: Option<String>)
    ensures
        r.deep_view() == spec_last_segment(s@),
{
    let cs = chars_of(s);
    if cs.len() == 0 {
        return None;
    }
    if cs[cs.len() - 1] == '/' {
        proof {
            assert(last_slash(s@) == s@.len() - 1);
        }
        return None;
    }
    proof {
        assert(s@.take(cs@.len() as int) =~= s@);
    }
    let mut i: usize = cs.len();
    while i > 0
        invariant
            i <= cs@.len(),
            cs@ == s@,
            s@.len() > 0,
            s@.last() != '/',
            last_slash(s@) == last_slash(s@.take(i as int)),
        decreases i,
    {
        proof {
            assert(s@.take(i as int).last() == s@[i - 1]);
            assert(s@.take(i as int).drop_last() =~= s@.take(i - 1));
        }
        if cs[i - 1] == '/' {
            proof {
                assert(last_slash(s@) == i - 1);
            }
            let mut out: Vec<char> = Vec::new();
            let mut j: usize = i;
            while j < cs.len()
                invariant
                    i <= j <= cs@.len(),
                    cs@ == s@,
                    out@ == s@.subrange(i as int, j as int),
                decreases cs@.len() - j,
            {
                out.push(cs[j]);
                proof {
                    assert(s@.subrange(i as int, j + 1 as int) =~= s@.subrange(
                        i as int,
                        j as int,
                    ).push(s@[j as int]));
                }
                j += 1;
            }
            proof {
                assert(s@.subrange(i as int, s@.len() as int) =~= s@.skip(i as int));
            }
            return Some(string_of(&out));
        }
        i -= 1;
    }
    proof {
        assert(s@.take(0) =~= Seq::<char>::empty());
        assert(last_slash(s@) == -1);
    }
    Some(string_of(&cs))
}

/// The one-character segment `.`.
pub open spec fn seg_dot() -> Seq<char> {
    seq!['.']
}

/// The two-character segment `..`.
pub open spec fn seg_dotdot() -> Seq<char> {
    seq!['.', '.']
}

/// Splits a string on forward slashes. There is always at least one
/// (possibly empty) segment.
pub open spec fn split_path(s: Seq<char>) -> Seq<Seq<char>>
    decreases s.len(),
{
    if s.len() == 0 {
        seq![Seq::<char>::empty()]
    } else {
        let init = split_path(s.drop_last());
        if s.last() == '/' {
            init.push(Seq::<char>::empty())
        } else {
            init.update(init.len() - 1, init.last().push(s.last()))
        }
    }
}

/// Collapses empty, `.` and resolvable `..` segments, left to right. In an
/// absolute path a leading `..` is dropped (the root is its own parent);
/// in a relative path unresolvable `..` segments accumulate at the front.
pub open spec fn clean_segs(segs: Seq<Seq<char>>, is_abs: bool) -> Seq<Seq<char>>
    decreases segs.len(),
{
    if segs.len() == 0 {
        Seq::empty()
    } else {
        let init = clean_segs(segs.drop_last(), is_abs);
        let seg = segs.last();
        if seg.len() == 0 || seg == seg_dot() {
            init
        } else if seg == seg_dotdot() {
            if init.len() > 0 && init.last() != seg_dotdot() {
                init.drop_last()
            } else if is_abs {
                init
            } else {
                init.push(seg_dotdot())
            }
        } else {
            init.push(seg)
        }
    }
}

/// Joins segments with forward slashes.
pub open spec fn join_segs(segs: Seq<Seq<char>>) -> Seq<char>
    decreases segs.len(),
{
    if segs.len() == 0 {
        Seq::empty()
    } else if segs.len() == 1 {
        segs[0]
    } else {
        join_segs(segs.drop_last()) + seq!['/'] + segs.last()
    }
}

/// Renders cleaned segments back into a path string. An absolute path with
/// no segments is the root; a relative path with no segments is `.`.
pub open spec fn render_path(is_abs: bool, segs: Seq<Seq<char>>) -> Seq<char> {
    if is_abs {
        if segs.len() == 0 {
            seq!['/']
        } else {
            seq!['/'] + join_segs(segs)
        }
    } else {
        if segs.len() == 0 {
            seq!['.']
        } else {
            join_segs(segs)
        }
    }
}

/// The extended-length indirection prefix as it reads once separators are
/// forward slashes.
pub open spec fn ext_prefix() -> Seq<char> {
    seq!['/', '/', '?', '/']
}

/// Strips the extended-length indirection prefix if present.
pub open spec fn strip_ext_prefix(s: Seq<char>) -> Seq<char> {
    if ext_prefix().is_prefix_of(s) {
        s.skip(4)
    } else {
        s
    }
}

/// Syntactic path normalization: forward slashes, no indirection prefix,
/// and empty, `.` and resolvable `..` segments collapsed.
pub open spec fn spec_normalize(s: Seq<char>) -> Seq<char> {
    let f = strip_ext_prefix(fwd_slashes(s));
    let is_abs = f.len() > 0 && f[0] == '/';
    let body = if is_abs {
        f.skip(1)
    } else {
        f
    };
    render_path(is_abs, clean_segs(split_path(body), is_abs))
}

/// Whether an exec segment equals `.`.
fn is_dot(seg: &Vec<char>) -> (r: bool)
    ensures
        r == (seg@ == seg_dot()),
{
    let r = seg.len() == 1 && seg[0] == '.';
    proof {
        if r {
            assert(seg@ =~= seg_dot());
        } else {
            assert(seg@ != seg_dot());
        }
    }
    r
}

/// Whether an exec segment equals `..`.
fn is_dotdot(seg: &Vec<char>) -> (r: bool)
    ensures
        r == (seg@ == seg_dotdot()),
{
    let r = seg.len() == 2 && seg[0] == '.' && seg[1] == '.';
    proof {
        if r {
            assert(seg@ =~= seg_dotdot());
        } else {
            assert(seg@ != seg_dotdot());
        }
    }
    r
}

/// Normalizes a path string syntactically, as `spec_normalize` describes:
/// separators become forward slashes, an extended-length indirection prefix
/// is stripped, and empty, `.` and resolvable `..` segments are collapsed.
/// This never touches the file system and never fails.
pub fn normalize_path(s: &str) -> (r: String)
    ensures
        r@ == spec_normalize(s@),
{
    let fstr = to_forward_slashes(s);
    let f0 = chars_of(fstr.as_str());
    let ghost forig: Seq<char> = fwd_slashes(s@);
    // Strip the indirection prefix.
    let has_ext = f0.len() >= 4 && f0[0] == '/' && f0[1] == '/' && f0[2] == '?' && f0[3] == '/';
    proof {
        if has_ext {
            assert(ext_prefix().is_prefix_of(forig)) by {
                assert(ext_prefix() =~= forig.take(4));
            }
        } else {
            assert(!ext_prefix().is_prefix_of(forig)) by {
                if ext_prefix().is_prefix_of(forig) {
                    assert(forig[0] == '/' && forig[1] == '/' && forig[2] == '?' && forig[3]
                        == '/');
                }
            }
        }
    }
    let mut f: Vec<char> = Vec::new();
    let start: usize = if has_ext {
        4
    } else {
        0
    };
    let mut k: usize = start;
    while k < f0.len()
        invariant
            start <= k <= f0@.len(),
            f0@ == forig,
            f@ == forig.subrange(start as int, k as int),
        decreases f0@.len() - k,
    {
        f.push(f0[k]);
        proof {
            assert(forig.subrange(start as int, k + 1 as int) =~= forig.subrange(
                start as int,
                k as int,
            ).push(forig[k as int]));
        }
        k += 1;
    }
    proof {
        assert(f@ =~= strip_ext_prefix(forig));
    }
    let ghost fseq: Seq<char> = strip_ext_prefix(forig);
    // Absolute paths start with a slash; the body is what follows it.
    let is_abs = f.len() > 0 && f[0] == '/';
    let mut body: Vec<char> = Vec::new();
    let bstart: usize = if is_abs {
        1
    } else {
        0
    };
    let mut k2: usize = bstart;
    while k2 < f.len()
        invariant
            bstart <= k2 <= f@.len(),
            f@ == fseq,
            body@ == fseq.subrange(bstart as int, k2 as int),
        decreases f@.len() - k2,
    {
        body.push(f[k2]);
        proof {
            assert(fseq.subrange(bstart as int, k2 + 1 as int) =~= fseq.subrange(
                bstart as int,
                k2 as int,
            ).push(fseq[k2 as int]));
        }
        k2 += 1;
    }
    proof {
        if is_abs {
            assert(body@ =~= fseq.skip(1));
        } else {
            assert(body@ =~= fseq);
        }
    }
    let ghost bodyseq: Seq<char> = body@;
    // Split the body on slashes.
    let mut segs: Vec<Vec<char>> = Vec::new();
    let mut cur: Vec<char> = Vec::new();
    let mut i: usize = 0;
    while i < body.len()
        invariant
            i <= body@.len(),
            body@ == bodyseq,
            segs@.map_values(|v: Vec<char>| v@).push(cur@) == split_path(bodyseq.take(i as int)),
        decreases body@.len() - i,
    {
        proof {
            assert(bodyseq.take(i + 1 as int).drop_last() =~= bodyseq.take(i as int));
            assert(bodyseq.take(i + 1 as int).last() == bodyseq[i as int]);
        }
        let c = body[i];
        if c == '/' {
            segs.push(cur);
            cur = Vec::new();
            proof {
                assert(segs@.map_values(|v: Vec<char>| v@).push(cur@) =~= split_path(
                    bodyseq.take(i as int),
                ).push(Seq::<char>::empty()));
            }
        } else {
            cur.push(c);
            proof {
                let prev = split_path(bodyseq.take(i as int));
                assert(segs@.map_values(|v: Vec<char>| v@).push(cur@) =~= prev.update(
                    prev.len() - 1,
                    prev.last().push(bodyseq[i as int]),
                ));
            }
        }
        i += 1;
    }
    segs.push(cur);
    proof {
        assert(bodyseq.take(bodyseq.len() as int) =~= bodyseq);
    }
    let ghost segseq: Seq<Seq<char>> = split_path(bodyseq);
    // Clean the segments.
    let mut cleaned: Vec<Vec<char>> = Vec::new();
    let mut j: usize = 0;
    while j < segs.len()
        invariant
            j <= segs@.len(),
            segs@.map_values(|v: Vec<char>| v@) == segseq,
            cleaned@.map_values(|v: Vec<char>| v@) == clean_segs(segseq.take(j as int), is_abs),
        decreases segs@.len() - j,
    {
        proof {
            assert(segseq.take(j + 1 as int).drop_last() =~= segseq.take(j as int));
            assert(segseq.take(j + 1 as int).last() == segseq[j as int]);
            assert(segs@[j as int]@ == segseq[j as int]);
        }
        let seg = &segs[j];
        if seg.len() == 0 || is_dot(seg) {
            // dropped
        } else if is_dotdot(seg) {
            let pop = cleaned.len() > 0 && !is_dotdot(&cleaned[cleaned.len() - 1]);
            proof {
                let cl = clean_segs(segseq.take(j as int), is_abs);
                assert(cleaned@.len() == cl.len());
                if cleaned@.len() > 0 {
                    assert(cleaned@.map_values(|v: Vec<char>| v@).last() == cl.last());
                }
            }
            if pop {
                let _ = cleaned.pop();
                proof {
                    let cl = clean_segs(segseq.take(j as int), is_abs);
                    assert(cleaned@.map_values(|v: Vec<char>| v@) =~= cl.drop_last());
                }
            } else if is_abs {
                // dropped at the root
            } else {
                let mut dd: Vec<char> = Vec::new();
                dd.push('.');
                dd.push('.');
                proof {
                    assert(dd@ =~= seg_dotdot());
                }
                cleaned.push(dd);
                proof {
                    let cl = clean_segs(segseq.take(j as int), is_abs);
                    assert(cleaned@.map_values(|v: Vec<char>| v@) =~= cl.push(seg_dotdot()));
                }
            }
        } else {
            let copy = seg.clone();
            proof {
                assert(copy@ == segseq[j as int]);
            }
            cleaned.push(copy);
            proof {
                let cl = clean_segs(segseq.take(j as int), is_abs);
                assert(cleaned@.map_values(|v: Vec<char>| v@) =~= cl.push(segseq[j as int]));
            }
        }
        j += 1;
    }
    proof {
        assert(segseq.take(segseq.len() as int) =~= segseq);
    }
    let ghost clseq: Seq<Seq<char>> = clean_segs(segseq, is_abs);
    // Render.
    let mut out: Vec<char> = Vec::new();
    if cleaned.len() == 0 {
        if is_abs {
            out.push('/');
            proof {
                assert(out@ =~= render_path(is_abs, clseq));
            }
        } else {
            out.push('.');
            proof {
                assert(out@ =~= render_path(is_abs, clseq));
            }
        }
        return string_of(&out);
    }
    if is_abs {
        out.push('/');
    }
    let mut m: usize = 0;
    while m < cleaned.len()
        invariant
            0 < cleaned@.len(),
            m <= cleaned@.len(),
            cleaned@.map_values(|v: Vec<char>| v@) == clseq,
            m == 0 ==> out@ == if is_abs {
                seq!['/']
            } else {
                Seq::<char>::empty()
            },
            m > 0 ==> out@ == if is_abs {
                seq!['/'] + join_segs(clseq.take(m as int))
            } else {
                join_segs(clseq.take(m as int))
            },
        decreases cleaned@.len() - m,
    {
        if m > 0 {
            out.push('/');
        }
        let seg = &cleaned[m];
        let mut q: usize = 0;
        let ghost outpre: Seq<char> = out@;
        while q < seg.len()
            invariant
                q <= seg@.len(),
                seg@ == clseq[m as int],
                m < clseq.len(),
                out@ == outpre + clseq[m as int].take(q as int),
            decreases seg@.len() - q,
        {
            out.push(seg[q]);
            proof {
                assert(outpre + clseq[m as int].take(q + 1 as int) =~= (outpre + clseq[
                    m as int
                ].take(q as int)).push(clseq[m as int][q as int]));
            }
            q += 1;
        }
        proof {
            assert(clseq[m as int].take(clseq[m as int].len() as int) =~= clseq[m as int]);
            if m == 0 {
                assert(join_segs(clseq.take(1)) =~= clseq[0]);
                if is_abs {
                    assert(out@ =~= seq!['/'] + join_segs(clseq.take(1)));
                } else {
                    assert(out@ =~= join_segs(clseq.take(1)));
                }
            } else {
                assert(clseq.take(m + 1 as int).drop_last() =~= clseq.take(m as int));
                assert(join_segs(clseq.take(m + 1 as int)) =~= join_segs(clseq.take(m as int))
                    + seq!['/'] + clseq[m as int]);
                if is_abs {
                    assert(out@ =~= seq!['/'] + join_segs(clseq.take(m + 1 as int)));
                } else {
                    assert(out@ =~= join_segs(clseq.take(m + 1 as int)));
                }
            }
        }
        m += 1;
    }
    proof {
        assert(clseq.take(clseq.len() as int) =~= clseq);
        assert(out@ =~= render_path(is_abs, clseq));
    }
    string_of(&out)
}

/// The parent directory once separators are forward slashes.
pub open spec fn spec_parent_fwd(p: Seq<char>) -> Option<Seq<char>> {
    spec_parent(fwd_slashes(p))
}

/// The parent directory of a path, separators first made forward slashes.
pub fn parent_dir_fwd(p: &str) -> (r: Option<String>)
    ensures
        r.deep_view() == spec_parent_fwd(p@),
{
    let f = to_forward_slashes(p);
    parent_path(f.as_str())
}

/// Whether the vector holds a string with this view.
pub fn vec_contains_str(v: &Vec<String>, s: &str) -> (r: bool)
    ensures
        r == v.deep_view().contains(s@),
{
    let mut i: usize = 0;
    while i < v.len()
        invariant
            i <= v@.len(),
            forall|j: int| 0 <= j < i ==> v.deep_view()[j] != s@,
        decreases v@.len() - i,
    {
        if str_eq(v[i].as_str(), s) {
            proof {
                assert(v.deep_view()[i as int] == s@);
            }
            return true;
        }
        i += 1;
    }
    proof {
        if v.deep_view().contains(s@) {
            let j = choose|j: int| 0 <= j < v.deep_view().len() && v.deep_view()[j] == s@;
        }
    }
    false
}

/// Folds a character for loose path comparison: backslashes become forward
/// slashes and ASCII upper-case letters become lower case.
pub open spec fn loose_char(c: char) -> char {
    if c == '\\' {
        '/'
    } else if 65 <= c as u32 && c as u32 <= 90 {
        ((c as u32 + 32) as char)
    } else {
        c
    }
}

/// The loose comparison key of a path string: separators and ASCII case
/// folded away.
pub open spec fn loose_key(s: Seq<char>) -> Seq<char> {
    s.map_values(|c: char| loose_char(c))
}

/// Folds one character for loose path comparison.
fn loose_char_exec(c: char) -> (r: char)
    ensures
        r == loose_char(c),
{
    if c == '\\' {
        return '/';
    }
    let u = c as u32;
    if 65 <= u && u <= 90 {
        let b = c as u8;
        let lc = (b + 32) as char;
        proof {
            assert(lc == loose_char(c));
        }
        lc
    } else {
        c
    }
}

/// Loose equality of two path strings: equal once separators and ASCII
/// case are folded away.
pub fn loose_eq(a: &str, b: &str) -> (r: bool)
    ensures
        r == (loose_key(a@) == loose_key(b@)),
{
    let ca = chars_of(a);
    let cb = chars_of(b);
    if ca.len() != cb.len() {
        proof {
            assert(loose_key(a@).len() != loose_key(b@).len());
        }
        return false;
    }
    let mut i: usize = 0;
    while i < ca.len()
        invariant
            i <= ca@.len(),
            ca@ == a@,
            cb@ == b@,
            a@.len() == b@.len(),
            forall|j: int| 0 <= j < i ==> loose_char(a@[j]) == loose_char(b@[j]),
        decreases ca@.len() - i,
    {
        if loose_char_exec(ca[i]) != loose_char_exec(cb[i]) {
            proof {
                assert(loose_key(a@)[i as int] != loose_key(b@)[i as int]);
            }
            return false;
        }
        i += 1;
    }
    proof {
        assert(loose_key(a@) =~= loose_key(b@));
    }
    true
}

/// Joins path strings with a separator character, in order.
pub open spec fn spec_join_list(parts: Seq<Seq<char>>, sep: char) -> Seq<char>
    decreases parts.len(),
{
    if parts.len() == 0 {
        Seq::empty()
    } else if parts.len() == 1 {
        parts[0]
    } else {
        spec_join_list(parts.drop_last(), sep) + seq![sep] + parts.last()
    }
}

/// Joins the strings of the vector with the separator character.
pub fn join_list(parts: &Vec<String>, sep: char) -> (r: String)
    ensures
        r@ == spec_join_list(parts.deep_view(), sep),
{
    let mut out: Vec<char> = Vec::new();
    let mut i: usize = 0;
    while i < parts.len()
        invariant
            i <= parts@.len(),
            out@ == spec_join_list(parts.deep_view().take(i as int), sep),
        decreases parts@.len() - i,
    {
        if i > 0 {
            out.push(sep);
        }
        let cs = chars_of(parts[i].as_str());
        let ghost pre = out@;
        let mut j: usize = 0;
        while j < cs.len()
            invariant
                j <= cs@.len(),
                cs@ == parts.deep_view()[i as int],
                i < parts.deep_view().len(),
                out@ == pre + cs@.take(j as int),
            decreases cs@.len() - j,
        {
            out.push(cs[j]);
            proof {
                assert(pre + cs@.take(j + 1 as int) =~= (pre + cs@.take(j as int)).push(
                    cs@[j as int],
                ));
            }
            j += 1;
        }
        proof {
            let pv = parts.deep_view();
            assert(cs@.take(cs@.len() as int) =~= cs@);
            assert(pv.take(i + 1 as int).drop_last() =~= pv.take(i as int));
            assert(pv.take(i + 1 as int).last() == pv[i as int]);
            if i == 0 {
                assert(spec_join_list(pv.take(1), sep) == pv[0]);
                assert(out@ =~= pv[0]);
            } else {
                assert(out@ =~= spec_join_list(pv.take(i as int), sep) + seq![sep] + pv[i as int]);
            }
        }
        i += 1;
    }
    proof {
        assert(parts.deep_view().take(parts.deep_view().len() as int) =~= parts.deep_view());
    }
    string_of(&out)
}

/// Whether a path string is absolute: it starts with a separator, or with
/// a drive letter and a colon.
pub open spec fn spec_is_abs_path(s: Seq<char>) -> bool {
    ||| (s.len() >= 1 && (s[0] == '/' || s[0] == '\\'))
    ||| (s.len() >= 2 && s[1] == ':' && ((65 <= s[0] as u32 && s[0] as u32 <= 90) || (97 <= s[0]
        as u32 && s[0] as u32 <= 122)))
}

/// Whether a path string is absolute, as `spec_is_abs_path` describes.
pub fn is_abs_path(s: &str) -> (r: bool)
    ensures
        r == spec_is_abs_path(s@),
{
    let cs = chars_of(s);
    if cs.len() >= 1 && (cs[0] == '/' || cs[0] == '\\') {
        return true;
    }
    if cs.len() >= 2 && cs[1] == ':' {
        let u = cs[0] as u32;
        if (65 <= u && u <= 90) || (97 <= u && u <= 122) {
            return true;
        }
    }
    false
}

/// Resolves a path against a working directory: an absolute path is
/// normalized as it stands, a relative one is joined to the directory
/// first.
pub open spec fn spec_resolve_against(cwd: Seq<char>, p: Seq<char>) -> Seq<char> {
    if spec_is_abs_path(p) {
        spec_normalize(p)
    } else {
        spec_normalize(cwd + seq!['/'] + p)
    }
}

/// Resolves a path against a working directory, as `spec_resolve_against`
/// describes.
pub fn resolve_against(cwd: &str, p: &str) -> (r: String)
    ensures
        r@ == spec_resolve_against(cwd@, p@),
{
    if is_abs_path(p) {
        normalize_path(p)
    } else {
        let joined = join_path(cwd, p);
        normalize_path(joined.as_str())
    }
}

/// The first string whose flag is set, scanning in order.
pub open spec fn spec_first_flagged(items: Seq<Seq<char>>, flags: Seq<bool>) -> Option<Seq<char>>
    decreases items.len(),
{
    if items.len() == 0 {
        None
    } else if flags[0] {
        Some(items[0])
    } else {
        spec_first_flagged(items.skip(1), flags.skip(1))
    }
}

/// Returns the first string whose flag is set, as `spec_first_flagged`
/// describes.
pub fn first_flagged(items: &Vec<String>, flags: &Vec<bool>) -> (r: Option<String>)
    requires
        flags@.len() == items@.len(),
    ensures
        r.deep_view() == spec_first_flagged(items.deep_view(), flags@),
{
    proof {
        assert(items.deep_view().skip(0) =~= items.deep_view());
        assert(flags@.skip(0) =~= flags@);
    }
    let n = items.len();
    let mut i: usize = 0;
    while i < n
        invariant
            i <= n,
            n == items@.len(),
            flags@.len() == n,
            spec_first_flagged(items.deep_view(), flags@) == spec_first_flagged(
                items.deep_view().skip(i as int),
                flags@.skip(i as int),
            ),
        decreases n - i,
    {
        proof {
            assert(items.deep_view().skip(i as int).skip(1) =~= items.deep_view().skip(
                i as int + 1,
            ));
            assert(flags@.skip(i as int).skip(1) =~= flags@.skip(i as int + 1));
            assert(items.deep_view().skip(i as int)[0] == items.deep_view()[i as int]);
            assert(flags@.skip(i as int)[0] == flags@[i as int]);
        }
        if flags[i] {
            return Some(items[i].clone());
        }
        i += 1;
    }
    proof {
        assert(items.deep_view().skip(n as int) =~= Seq::<Seq<char>>::empty());
    }
    None
}

/// Whether `sub` occurs somewhere in `s`.
pub open spec fn spec_contains_sub(s: Seq<char>, sub: Seq<char>) -> bool {
    exists|i: int|
        0 <= i && i + sub.len() <= s.len() && #[trigger] s.subrange(i, i + sub.len() as int) == sub
}

/// Whether `sub` occurs somewhere in `s`, as `spec_contains_sub`
/// describes.
pub fn contains_sub(s: &str, sub: &str) -> (r: bool)
    ensures
        r == spec_contains_sub(s@, sub@),
{
    let cs = chars_of(s);
    let cb = chars_of(sub);
    if cb.len() > cs.len() {
        proof {
            if spec_contains_sub(s@, sub@) {
                let i = choose|i: int|
                    0 <= i && i + sub@.len() <= s@.len() && #[trigger] s@.subrange(
                        i,
                        i + sub@.len() as int,
                    ) == sub@;
            }
        }
        return false;
    }
    let total = cs.len();
    let mut i: usize = 0;
    while i <= total - cb.len()
        invariant
            total == cs@.len(),
            cb@.len() <= cs@.len(),
            i <= cs@.len() - cb@.len() + 1,
            cs@ == s@,
            cb@ == sub@,
            forall|x: int|
                0 <= x < i ==> #[trigger] s@.subrange(x, x + sub@.len() as int) != sub@,
        decreases cs@.len() - cb@.len() + 1 - i,
    {
        let mut j: usize = 0;
        let mut hit = true;
        while j < cb.len() && hit
            invariant
                total == cs@.len(),
                j <= cb@.len(),
                i + cb@.len() <= total,
                cs@ == s@,
                cb@ == sub@,
                hit == (forall|k: int| 0 <= k < j ==> s@[i + k] == sub@[k]),
                !hit ==> !(forall|k: int| 0 <= k < cb@.len() ==> s@[i + k] == sub@[k]),
            decreases cb@.len() - j,
        {
            if cs[i + j] != cb[j] {
                proof {
                    assert(s@[i + j as int] != sub@[j as int]);
                }
                hit = false;
            }
            j += 1;
        }
        if hit {
            proof {
                assert(j == cb@.len());
            }
            proof {
                assert(s@.subrange(i as int, i + sub@.len() as int) =~= sub@);
            }
            return true;
        }
        proof {
            assert(s@.subrange(i as int, i + sub@.len() as int) != sub@) by {
                if s@.subrange(i as int, i + sub@.len() as int) == sub@ {
                    assert(forall|k: int|
                        0 <= k < sub@.len() ==> s@[i + k] == #[trigger] s@.subrange(
                            i as int,
                            i + sub@.len() as int,
                        )[k]);
                }
            }
        }
        i += 1;
    }
    proof {
        if spec_contains_sub(s@, sub@) {
            let x = choose|x: int|
                0 <= x && x + sub@.len() <= s@.len() && #[trigger] s@.subrange(
                    x,
                    x + sub@.len() as int,
                ) == sub@;
        }
    }
    false
}

/// Lexicographic order on strings, by code point, as the standard string
/// ordering sorts them.
pub open spec fn lex_lt(a: Seq<char>, b: Seq<char>) -> bool
    decreases a.len(),
{
    if b.len() == 0 {
        false
    } else if a.len() == 0 {
        true
    } else if a[0] != b[0] {
        (a[0] as u32) < (b[0] as u32)
    } else {
        lex_lt(a.skip(1), b.skip(1))
    }
}

/// Nothing sorts strictly before itself.
pub proof fn lemma_lex_irrefl(a: Seq<char>)
    ensures
        !lex_lt(a, a),
    decreases a.len(),
{
    if a.len() > 0 {
        lemma_lex_irrefl(a.skip(1));
    }
}

/// The order is transitive.
pub proof fn lemma_lex_trans(a: Seq<char>, b: Seq<char>, c: Seq<char>)
    requires
        lex_lt(a, b),
        lex_lt(b, c),
    ensures
        lex_lt(a, c),
    decreases a.len(),
{
    if a.len() == 0 {
    } else {
        if a[0] == b[0] && b[0] == c[0] {
            lemma_lex_trans(a.skip(1), b.skip(1), c.skip(1));
        }
    }
}

/// Compares two strings in lexicographic order, as `lex_lt` describes.
pub fn str_lt(a: &str, b: &str) -> (r: bool)
    ensures
        r == lex_lt(a@, b@),
{
    let ca = chars_of(a);
    let cb = chars_of(b);
    let mut i: usize = 0;
    proof {
        assert(a@.skip(0) =~= a@);
        assert(b@.skip(0) =~= b@);
    }
    while i < ca.len() && i < cb.len()
        invariant
            i <= ca@.len(),
            i <= cb@.len(),
            ca@ == a@,
            cb@ == b@,
            lex_lt(a@, b@) == lex_lt(a@.skip(i as int), b@.skip(i as int)),
        decreases ca@.len() - i,
    {
        let x = ca[i];
        let y = cb[i];
        proof {
            assert(a@.skip(i as int)[0] == a@[i as int]);
            assert(b@.skip(i as int)[0] == b@[i as int]);
            assert(a@.skip(i as int).skip(1) =~= a@.skip(i as int + 1));
            assert(b@.skip(i as int).skip(1) =~= b@.skip(i as int + 1));
        }
        if x != y {
            return (x as u32) < (y as u32);
        }
        i += 1;
    }
    proof {
        if i == ca@.len() {
            assert(a@.skip(i as int) =~= Seq::<char>::empty());
        } else {
            assert(b@.skip(i as int) =~= Seq::<char>::empty());
        }
    }
    ca.len() < cb.len()
}

/// No character of the string is a backslash.
pub open spec fn no_backslash(s: Seq<char>) -> bool {
    forall|i: int| 0 <= i < s.len() ==> s[i] != '\\'
}

/// A segment holds neither separator character.
pub open spec fn seg_chars_ok(seg: Seq<char>) -> bool {
    forall|i: int| 0 <= i < seg.len() ==> (seg[i] != '/' && seg[i] != '\\')
}

/// The shape of a cleaned segment list: every segment is non-empty, is not
/// `.`, holds no separator; `..` segments only lead a relative path.
pub open spec fn canonical_segs(segs: Seq<Seq<char>>, is_abs: bool) -> bool {
    &&& forall|i: int|
        0 <= i < segs.len() ==> seg_chars_ok(#[trigger] segs[i]) && segs[i].len() > 0 && segs[i]
            != seg_dot()
    &&& (is_abs ==> forall|i: int| 0 <= i < segs.len() ==> #[trigger] segs[i] != seg_dotdot())
    &&& forall|i: int, j: int|
        0 <= i < j < segs.len() && #[trigger] segs[j] == seg_dotdot() ==> #[trigger] segs[i]
            == seg_dotdot()
}

/// Replacing backslashes leaves a backslash-free string unchanged.
proof fn lemma_fwd_id(s: Seq<char>)
    requires
        no_backslash(s),
    ensures
        fwd_slashes(s) == s,
{
    assert(fwd_slashes(s) =~= s);
}

/// The result of replacing backslashes holds none.
proof fn lemma_fwd_no_backslash(s: Seq<char>)
    ensures
        no_backslash(fwd_slashes(s)),
{
    assert forall|i: int| 0 <= i < fwd_slashes(s).len() implies fwd_slashes(s)[i] != '\\' by {
        assert(fwd_slashes(s)[i] == fwd_char(s[i]));
    }
}

/// Splitting yields at least one segment, and every segment is free of
/// separators when the source is free of backslashes.
proof fn lemma_split_segs_ok(s: Seq<char>)
    requires
        no_backslash(s),
    ensures
        split_path(s).len() >= 1,
        forall|i: int| 0 <= i < split_path(s).len() ==> seg_chars_ok(#[trigger] split_path(s)[i]),
    decreases s.len(),
{
    if s.len() == 0 {
        assert(split_path(s) =~= seq![Seq::<char>::empty()]);
    } else {
        assert(no_backslash(s.drop_last()));
        lemma_split_segs_ok(s.drop_last());
        let init = split_path(s.drop_last());
        if s.last() == '/' {
            assert(seg_chars_ok(Seq::<char>::empty()));
        } else {
            let ext = init.last().push(s.last());
            assert(seg_chars_ok(ext)) by {
                assert(forall|k: int|
                    0 <= k < ext.len() - 1 ==> ext[k] == init.last()[k]);
                assert(ext[ext.len() - 1] == s.last());
                assert(s.last() != '\\');
            }
        }
    }
}

/// Cleaning produces a canonical segment list.
proof fn lemma_clean_canonical(segs: Seq<Seq<char>>, is_abs: bool)
    requires
        forall|i: int| 0 <= i < segs.len() ==> seg_chars_ok(#[trigger] segs[i]),
    ensures
        canonical_segs(clean_segs(segs, is_abs), is_abs),
    decreases segs.len(),
{
    if segs.len() == 0 {
    } else {
        lemma_clean_canonical(segs.drop_last(), is_abs);
        let init = clean_segs(segs.drop_last(), is_abs);
        let seg = segs.last();
        let out = clean_segs(segs, is_abs);
        if seg.len() == 0 || seg == seg_dot() {
        } else if seg == seg_dotdot() {
            if init.len() > 0 && init.last() != seg_dotdot() {
                assert(out =~= init.drop_last());
            } else if is_abs {
            } else {
                // every earlier segment of init is `..` as well
                assert(forall|i: int|
                    0 <= i < init.len() ==> #[trigger] init[i] == seg_dotdot());
                assert(seg_chars_ok(seg_dotdot()));
            }
        } else {
            assert(seg_chars_ok(seg));
            assert(seg != seg_dotdot());
        }
    }
}

/// Splitting a single separator-free segment yields just that segment.
proof fn lemma_split_single(seg: Seq<char>)
    requires
        !seg.contains('/'),
    ensures
        split_path(seg) == seq![seg],
    decreases seg.len(),
{
    if seg.len() == 0 {
        assert(seg =~= Seq::<char>::empty());
        assert(split_path(seg) =~= seq![seg]);
    } else {
        assert(!seg.drop_last().contains('/')) by {
            if seg.drop_last().contains('/') {
                let i = choose|i: int| 0 <= i < seg.drop_last().len() && seg.drop_last()[i] == '/';
                assert(seg[i] == '/');
            }
        }
        lemma_split_single(seg.drop_last());
        assert(seg.last() != '/') by {
            if seg.last() == '/' {
                assert(seg[seg.len() - 1] == '/');
            }
        }
        assert(split_path(seg) =~= seq![seg.drop_last().push(seg.last())]);
        assert(seg.drop_last().push(seg.last()) =~= seg);
    }
}

/// Appending a separator and a separator-free segment appends one segment
/// to the split.
proof fn lemma_split_append(x: Seq<char>, w: Seq<char>)
    requires
        !w.contains('/'),
    ensures
        split_path(x + seq!['/'] + w) == split_path(x).push(w),
    decreases w.len(),
{
    if w.len() == 0 {
        let y = x + seq!['/'] + w;
        assert(y =~= x.push('/'));
        assert(y.drop_last() =~= x);
        assert(split_path(y) =~= split_path(x).push(Seq::<char>::empty()));
        assert(Seq::<char>::empty() =~= w);
    } else {
        assert(!w.drop_last().contains('/')) by {
            if w.drop_last().contains('/') {
                let i = choose|i: int| 0 <= i < w.drop_last().len() && w.drop_last()[i] == '/';
                assert(w[i] == '/');
            }
        }
        lemma_split_append(x, w.drop_last());
        let y = x + seq!['/'] + w;
        let y0 = x + seq!['/'] + w.drop_last();
        assert(y.drop_last() =~= y0);
        assert(w.last() != '/') by {
            if w.last() == '/' {
                assert(w[w.len() - 1] == '/');
            }
        }
        assert(y.last() == w.last());
        let prev = split_path(y0);
        assert(prev == split_path(x).push(w.drop_last()));
        assert(prev.last() == w.drop_last());
        assert(split_path(y) =~= prev.update(prev.len() - 1, prev.last().push(w.last())));
        assert(prev.last().push(w.last()) =~= w);
        assert(prev.update(prev.len() - 1, w) =~= split_path(x).push(w));
    }
}

/// A separator-free segment does not `contains` a slash.
proof fn lemma_seg_ok_no_slash(seg: Seq<char>)
    requires
        seg_chars_ok(seg),
    ensures
        !seg.contains('/'),
{
    if seg.contains('/') {
        let i = choose|i: int| 0 <= i < seg.len() && seg[i] == '/';
    }
}

/// Splitting the join of canonical-shaped segments restores them.
proof fn lemma_split_join(segs: Seq<Seq<char>>)
    requires
        segs.len() >= 1,
        forall|i: int| 0 <= i < segs.len() ==> seg_chars_ok(#[trigger] segs[i]),
    ensures
        split_path(join_segs(segs)) == segs,
    decreases segs.len(),
{
    if segs.len() == 1 {
        lemma_seg_ok_no_slash(segs[0]);
        lemma_split_single(segs[0]);
        assert(seq![segs[0]] =~= segs);
    } else {
        lemma_split_join(segs.drop_last());
        lemma_seg_ok_no_slash(segs.last());
        lemma_split_append(join_segs(segs.drop_last()), segs.last());
        assert(split_path(join_segs(segs.drop_last())) == segs.drop_last());
        assert(segs.drop_last().push(segs.last()) =~= segs);
    }
}

/// Cleaning canonical segments changes nothing.
proof fn lemma_clean_id(segs: Seq<Seq<char>>, is_abs: bool)
    requires
        canonical_segs(segs, is_abs),
    ensures
        clean_segs(segs, is_abs) == segs,
    decreases segs.len(),
{
    if segs.len() == 0 {
        assert(clean_segs(segs, is_abs) =~= segs);
    } else {
        assert(canonical_segs(segs.drop_last(), is_abs));
        lemma_clean_id(segs.drop_last(), is_abs);
        let init = segs.drop_last();
        let seg = segs.last();
        assert(seg == segs[segs.len() - 1]);
        assert(seg.len() > 0 && seg != seg_dot());
        if seg == seg_dotdot() {
            assert(!is_abs);
            // the `..` prefix rule makes every earlier segment `..` too
            assert(forall|i: int| 0 <= i < init.len() ==> #[trigger] init[i] == seg_dotdot());
            if init.len() > 0 {
                assert(init.last() == seg_dotdot());
            }
            assert(clean_segs(segs, is_abs) =~= init.push(seg));
            assert(init.push(seg) =~= segs);
        } else {
            assert(clean_segs(segs, is_abs) =~= init.push(seg));
            assert(init.push(seg) =~= segs);
        }
    }
}

/// The join of non-empty separator-free segments: its first character is the
/// first segment's, and it holds no backslash.
proof fn lemma_join_chars(segs: Seq<Seq<char>>)
    requires
        segs.len() >= 1,
        forall|i: int|
            0 <= i < segs.len() ==> seg_chars_ok(#[trigger] segs[i]) && segs[i].len() > 0,
    ensures
        join_segs(segs).len() > 0,
        join_segs(segs)[0] == segs[0][0],
        no_backslash(join_segs(segs)),
    decreases segs.len(),
{
    if segs.len() == 1 {
        assert(join_segs(segs) == segs[0]);
        assert(seg_chars_ok(segs[0]));
    } else {
        lemma_join_chars(segs.drop_last());
        let j0 = join_segs(segs.drop_last());
        let j = join_segs(segs);
        assert(j == j0 + seq!['/'] + segs.last());
        assert(segs.drop_last()[0] == segs[0]);
        assert(j[0] == j0[0]);
        assert(no_backslash(j)) by {
            assert(seg_chars_ok(segs.last()));
            assert(forall|k: int| 0 <= k < j0.len() ==> j[k] == j0[k]);
            assert(j[j0.len() as int] == '/');
            assert(forall|k: int|
                j0.len() + 1 <= k < j.len() ==> j[k] == segs.last()[k - j0.len() - 1]);
        }
    }
}

/// Normalization is idempotent: normalizing an already-normalized path
/// string returns it unchanged.
pub proof fn lemma_normalize_idempotent(s: Seq<char>)
    ensures
        spec_normalize(spec_normalize(s)) == spec_normalize(s),
{
    let f = strip_ext_prefix(fwd_slashes(s));
    lemma_fwd_no_backslash(s);
    assert(no_backslash(f)) by {
        let f1 = fwd_slashes(s);
        if ext_prefix().is_prefix_of(f1) {
            assert(forall|i: int| 0 <= i < f.len() ==> f[i] == f1[i + 4]);
        }
    }
    let is_abs = f.len() > 0 && f[0] == '/';
    let body = if is_abs {
        f.skip(1)
    } else {
        f
    };
    assert(no_backslash(body)) by {
        if is_abs {
            assert(forall|i: int| 0 <= i < body.len() ==> body[i] == f[i + 1]);
        }
    }
    let segs = split_path(body);
    lemma_split_segs_ok(body);
    let cl = clean_segs(segs, is_abs);
    lemma_clean_canonical(segs, is_abs);
    let out = render_path(is_abs, cl);
    assert(spec_normalize(s) == out);

    // The rendered string has no backslash, so the second separator pass
    // leaves it unchanged.
    if cl.len() > 0 {
        lemma_join_chars(cl);
    }
    assert(no_backslash(out)) by {
        if cl.len() == 0 {
        } else if is_abs {
            let j = join_segs(cl);
            assert(forall|k: int| 1 <= k < out.len() ==> out[k] == j[k - 1]);
            assert(out[0] == '/');
        }
    }
    lemma_fwd_id(out);

    // The rendered string never starts with the indirection prefix.
    assert(strip_ext_prefix(out) == out) by {
        if ext_prefix().is_prefix_of(out) {
            assert(out.len() >= 4);
            assert(out[0] == '/' && out[1] == '/');
            assert(cl.len() > 0);
            if is_abs {
                assert(out[1] == join_segs(cl)[0]);
                assert(join_segs(cl)[0] == cl[0][0]);
                assert(seg_chars_ok(cl[0]));
                assert(cl[0][0] != '/');
            } else {
                assert(out[0] == join_segs(cl)[0]);
                assert(join_segs(cl)[0] == cl[0][0]);
                assert(seg_chars_ok(cl[0]));
                assert(cl[0][0] != '/');
            }
        }
    }

    // The rendered string is absolute exactly when the input was.
    assert((out.len() > 0 && out[0] == '/') == is_abs) by {
        if is_abs {
            if cl.len() == 0 {
                assert(out == seq!['/']);
                assert(out[0] == '/');
            } else {
                assert(out[0] == '/');
            }
        } else {
            if cl.len() == 0 {
                assert(out == seq!['.']);
                assert(out[0] != '/');
            } else {
                assert(out[0] == cl[0][0]);
                assert(seg_chars_ok(cl[0]));
                assert(out[0] != '/');
            }
        }
    }

    // Re-splitting and re-cleaning the rendered body restores the cleaned
    // segments.
    let body2 = if is_abs {
        out.skip(1)
    } else {
        out
    };
    assert(clean_segs(split_path(body2), is_abs) == cl) by {
        if cl.len() == 0 {
            if is_abs {
                assert(out == seq!['/']);
                assert(body2 =~= Seq::<char>::empty());
                let one = seq![Seq::<char>::empty()];
                assert(split_path(body2) =~= one);
                assert(one.drop_last() =~= Seq::<Seq<char>>::empty());
                assert(clean_segs(one.drop_last(), is_abs) =~= Seq::<Seq<char>>::empty());
                assert(one.last() == Seq::<char>::empty());
                assert(clean_segs(one, is_abs) =~= cl);
            } else {
                assert(out == seq!['.']);
                lemma_split_single(seg_dot());
                assert(out =~= seg_dot());
                let one = seq![seg_dot()];
                assert(split_path(body2) == one);
                assert(one.drop_last() =~= Seq::<Seq<char>>::empty());
                assert(clean_segs(one.drop_last(), is_abs) =~= Seq::<Seq<char>>::empty());
                assert(one.last() == seg_dot());
                assert(clean_segs(one, is_abs) =~= cl);
            }
        } else {
            let j = join_segs(cl);
            if is_abs {
                assert(out == seq!['/'] + j);
                assert(body2 =~= j);
            } else {
                assert(body2 =~= j);
            }
            lemma_split_join(cl);
            lemma_clean_id(cl, is_abs);
        }
    }
    assert(spec_normalize(out) == render_path(is_abs, cl));
}

} // verus!
