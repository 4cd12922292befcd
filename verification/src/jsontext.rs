//! JSON string quoting and unquoting for the library's two text formats:
//! the persisted registry file and the generated build-configuration file.
//! Quotation marks and backslashes are escaped; every other character
//! stands for itself.

use vstd::prelude::*;
use crate::paths::chars_of;
use crate::paths::string_of;

verus! {

/// The escape of one character inside a JSON string.
pub open spec fn esc_char(c: char) -> Seq<char> {
    if c == '"' {
        seq!['\\', '"']
    } else if c == '\\' {
        seq!['\\', '\\']
    } else {
        seq![c]
    }
}

/// The escape of a whole string body.
pub open spec fn esc(s: Seq<char>) -> Seq<char>
    decreases s.len(),
{
    if s.len() == 0 {
        Seq::empty()
    } else {
        esc(s.drop_last()) + esc_char(s.last())
    }
}

/// A string as it stands in JSON text: quoted and escaped.
pub open spec fn quoted(s: Seq<char>) -> Seq<char> {
    seq!['"'] + esc(s) + seq!['"']
}

/// Renders a string as a JSON string literal, as `quoted` describes.
pub fn quote_string(s: &str) -> (r: String)
    ensures
        r@ == quoted(s@),
{
    let cs = chars_of(s);
    let mut out: Vec<char> = Vec::new();
    out.push('"');
    let mut i: usize = 0;
    while i < cs.len()
        invariant
            i <= cs@.len(),
            cs@ == s@,
            out@ == seq!['"'] + esc(s@.take(i as int)),
        decreases cs@.len() - i,
    {
        let c = cs[i];
        if c == '"' {
            out.push('\\');
            out.push('"');
        } else if c == '\\' {
            out.push('\\');
            out.push('\\');
        } else {
            out.push(c);
        }
        proof {
            assert(s@.take(i + 1 as int).drop_last() =~= s@.take(i as int));
            assert(s@.take(i + 1 as int).last() == s@[i as int]);
            assert(out@ =~= seq!['"'] + esc(s@.take(i + 1 as int)));
        }
        i += 1;
    }
    out.push('"');
    proof {
        assert(s@.take(cs@.len() as int) =~= s@);
        assert(out@ =~= quoted(s@));
    }
    string_of(&out)
}

/// Reads a JSON string literal at `pos`: the position must hold `"`, and
/// the result is the unescaped body together with the position after the
/// closing quote. Only `\"` and `\\` escapes exist in this format.
pub open spec fn spec_parse_string_body(s: Seq<char>, pos: int) -> Option<(Seq<char>, int)>
    decreases s.len() - pos,
{
    if pos >= s.len() {
        None
    } else if s[pos] == '"' {
        Some((Seq::empty(), pos + 1))
    } else if s[pos] == '\\' {
        if pos + 1 < s.len() && (s[pos + 1] == '"' || s[pos + 1] == '\\') {
            match spec_parse_string_body(s, pos + 2) {
                Some((body, end)) => Some((seq![s[pos + 1]] + body, end)),
                None => None,
            }
        } else {
            None
        }
    } else {
        match spec_parse_string_body(s, pos + 1) {
            Some((body, end)) => Some((seq![s[pos]] + body, end)),
            None => None,
        }
    }
}

/// A quoted string at `pos`: a `"`, then the body.
pub open spec fn spec_parse_string(s: Seq<char>, pos: int) -> Option<(Seq<char>, int)> {
    if 0 <= pos < s.len() && s[pos] == '"' {
        spec_parse_string_body(s, pos + 1)
    } else {
        None
    }
}

/// Reads a JSON string literal, as `spec_parse_string` describes.
pub fn parse_string(s: &Vec<char>, pos: usize) -> (r: Option<(String, usize)>)
    ensures
        match r {
            Some((body, end)) => spec_parse_string(s@, pos as int) == Some((body@, end as int))
                && pos < end <= s@.len(),
            None => spec_parse_string(s@, pos as int) is None,
        },
{
    if pos >= s.len() || s[pos] != '"' {
        return None;
    }
    let mut out: Vec<char> = Vec::new();
    let mut i: usize = pos + 1;
    loop
        invariant
            pos + 1 <= i <= s@.len(),
            pos < s@.len(),
            s@[pos as int] == '"',
            spec_parse_string_body(s@, pos + 1) == (match spec_parse_string_body(s@, i as int) {
                Some((body, end)) => Some((out@ + body, end)),
                None => None::<(Seq<char>, int)>,
            }),
        decreases s@.len() - i,
    {
        if i >= s.len() {
            return None;
        }
        let c = s[i];
        if c == '"' {
            proof {
                assert(spec_parse_string_body(s@, i as int) == Some(
                    (Seq::<char>::empty(), i + 1 as int),
                ));
                assert(out@ + Seq::<char>::empty() =~= out@);
            }
            return Some((string_of(&out), i + 1));
        } else if c == '\\' {
            if i + 1 >= s.len() {
                return None;
            }
            let c2 = s[i + 1];
            if c2 == '"' || c2 == '\\' {
                out.push(c2);
                proof {
                    assert(forall|b: Seq<char>|
                        out@ + b =~= out@.drop_last() + (seq![s@[i + 1]] + b));
                }
                i += 2;
            } else {
                return None;
            }
        } else {
            out.push(c);
            proof {
                assert(forall|b: Seq<char>| out@ + b =~= out@.drop_last() + (seq![s@[i as int]] + b));
            }
            i += 1;
        }
    }
}

/// Rendering a string and reading it back yields the string: the
/// unquoting of `quoted(v)` before any tail returns exactly `v` and stops
/// exactly after it.
pub proof fn lemma_parse_quoted(pad: Seq<char>, v: Seq<char>, rest: Seq<char>)
    ensures
        spec_parse_string(pad + quoted(v) + rest, pad.len() as int) == Some(
            (v, pad.len() + quoted(v).len() as int),
        ),
{
    let pos = pad.len() as int;
    let s = pad + quoted(v) + rest;
    assert(s[pos] == '"');
    assert(s.subrange(pos + 1, pos + 1 + esc(v).len() as int) =~= esc(v)) by {
        assert(forall|k: int| 0 <= k < esc(v).len() ==> s[pos + 1 + k] == esc(v)[k]) by {
            assert(forall|k: int| 0 <= k < esc(v).len() ==> quoted(v)[1 + k] == esc(v)[k]);
            assert(forall|k: int|
                0 <= k < quoted(v).len() ==> s[pos + k] == quoted(v)[k]);
        }
    }
    assert(s[pos + 1 + esc(v).len()] == '"') by {
        assert(quoted(v)[1 + esc(v).len() as int] == '"');
        assert(forall|k: int| 0 <= k < quoted(v).len() ==> s[pos + k] == quoted(v)[k]);
    }
    lemma_parse_esc_body(v, s, pos + 1);
    assert(quoted(v).len() == esc(v).len() + 2);
}

/// The unquoting of an escaped body followed by a closing quote.
proof fn lemma_parse_esc_body(v: Seq<char>, s: Seq<char>, pos: int)
    requires
        0 <= pos,
        pos + esc(v).len() + 1 <= s.len(),
        s.subrange(pos, pos + esc(v).len() as int) == esc(v),
        s[pos + esc(v).len()] == '"',
    ensures
        spec_parse_string_body(s, pos) == Some((v, pos + esc(v).len() + 1)),
    decreases v.len(),
{
    if v.len() == 0 {
        assert(s[pos] == '"');
    } else {
        let head = v[0];
        let tail = v.skip(1);
        lemma_esc_first(v);
        assert(esc(v) == esc_char(head) + esc(tail));
        assert(esc(v).len() == esc_char(head).len() + esc(tail).len());
        let tpos = pos + esc_char(head).len();
        assert(forall|k: int| 0 <= k < esc(v).len() ==> s[pos + k] == esc(v)[k]) by {
            assert(forall|k: int|
                0 <= k < esc(v).len() ==> s.subrange(pos, pos + esc(v).len() as int)[k] == esc(
                    v,
                )[k]);
        }
        assert forall|k: int| 0 <= k < esc_char(head).len() implies s[pos + k] == esc_char(
            head,
        )[k] by {
            assert(s[pos + k] == esc(v)[k]);
            assert(esc(v)[k] == (esc_char(head) + esc(tail))[k]);
            assert((esc_char(head) + esc(tail))[k] == esc_char(head)[k]);
        }
        assert(s.subrange(tpos, tpos + esc(tail).len() as int) =~= esc(tail)) by {
            assert forall|k: int| 0 <= k < esc(tail).len() implies s[tpos + k] == esc(tail)[k] by {
                assert(s[pos + (esc_char(head).len() + k)] == esc(v)[esc_char(head).len() + k]);
                assert(esc(v)[esc_char(head).len() + k] == (esc_char(head) + esc(tail))[esc_char(
                    head,
                ).len() + k]);
                assert((esc_char(head) + esc(tail))[esc_char(head).len() + k] == esc(tail)[k]);
            }
        }
        lemma_parse_esc_body(tail, s, tpos);
        if head == '"' || head == '\\' {
            assert(s[pos] == '\\');
            assert(s[pos + 1] == head);
            assert(spec_parse_string_body(s, pos) == Some(
                (seq![head] + tail, pos + 2 + esc(tail).len() + 1),
            ));
            assert(seq![head] + tail =~= v);
        } else {
            assert(esc_char(head) == seq![head]);
            assert(esc_char(head)[0] == head);
            assert(s[pos + 0] == esc_char(head)[0]);
            assert(s[pos] == head);
            assert(s[pos] != '"' && s[pos] != '\\');
            assert(spec_parse_string_body(s, pos) == Some(
                (seq![head] + tail, pos + 1 + esc(tail).len() + 1),
            ));
            assert(seq![head] + tail =~= v);
        }
    }
}

/// What a successful unquoting of a body consumed: exactly the escape of
/// the returned body, then the closing quote.
proof fn lemma_parse_body_sound(s: Seq<char>, pos: int)
    requires
        0 <= pos,
        spec_parse_string_body(s, pos) is Some,
    ensures
        ({
            let (b, end) = spec_parse_string_body(s, pos).unwrap();
            &&& end == pos + esc(b).len() + 1
            &&& pos < end <= s.len()
            &&& s.subrange(pos, end - 1) == esc(b)
            &&& s[end - 1] == '"'
        }),
    decreases s.len() - pos,
{
    let (b, end) = spec_parse_string_body(s, pos).unwrap();
    if s[pos] == '"' {
        assert(esc(b) =~= Seq::<char>::empty());
        assert(s.subrange(pos, pos) =~= esc(b));
    } else if s[pos] == '\\' {
        lemma_parse_body_sound(s, pos + 2);
        let (b0, _) = spec_parse_string_body(s, pos + 2).unwrap();
        assert(b == seq![s[pos + 1]] + b0);
        assert(b[0] == s[pos + 1]);
        assert(b.len() > 0);
        lemma_esc_first(b);
        assert(b.skip(1) =~= b0);
        assert(esc_char(b[0]) =~= seq!['\\', s[pos + 1]]);
        assert(s.subrange(pos, end - 1) =~= esc_char(b[0]) + esc(b0)) by {
            assert(forall|k: int|
                0 <= k < esc(b0).len() ==> s.subrange(pos + 2, end - 1)[k] == esc(b0)[k]);
        }
    } else {
        lemma_parse_body_sound(s, pos + 1);
        let (b0, _) = spec_parse_string_body(s, pos + 1).unwrap();
        assert(b == seq![s[pos]] + b0);
        assert(b[0] == s[pos]);
        assert(b.len() > 0);
        lemma_esc_first(b);
        assert(b.skip(1) =~= b0);
        assert(esc_char(b[0]) =~= seq![s[pos]]);
        assert(s.subrange(pos, end - 1) =~= esc_char(b[0]) + esc(b0)) by {
            assert(forall|k: int|
                0 <= k < esc(b0).len() ==> s.subrange(pos + 1, end - 1)[k] == esc(b0)[k]);
        }
    }
}

/// What a successful unquoting consumed: exactly the quoted rendering of
/// the returned string.
pub proof fn lemma_parse_string_sound(s: Seq<char>, pos: int)
    requires
        spec_parse_string(s, pos) is Some,
    ensures
        ({
            let (v, end) = spec_parse_string(s, pos).unwrap();
            &&& end == pos + quoted(v).len() as int
            &&& pos < end <= s.len()
            &&& s.subrange(pos, end) == quoted(v)
        }),
{
    let (v, end) = spec_parse_string(s, pos).unwrap();
    assert(s[pos] == '"');
    lemma_parse_body_sound(s, pos + 1);
    assert(s.subrange(pos + 1, end - 1) == esc(v));
    assert(s.subrange(pos, end) =~= quoted(v)) by {
        assert(quoted(v).len() == esc(v).len() + 2);
        assert(forall|k: int| 0 <= k < esc(v).len() ==> quoted(v)[1 + k] == esc(v)[k]);
        assert(forall|k: int|
            0 <= k < esc(v).len() ==> s.subrange(pos + 1, end - 1)[k] == esc(v)[k]);
        assert(quoted(v)[0] == '"');
        assert(quoted(v)[quoted(v).len() - 1] == '"');
        assert(s[end - 1] == '"');
    }
}

/// A quoted string is self-delimiting: two quoted strings followed by
/// arbitrary tails can only form the same text when the strings and the
/// tails agree.
pub proof fn lemma_quoted_inj(a: Seq<char>, b: Seq<char>, x: Seq<char>, y: Seq<char>)
    requires
        quoted(a) + x == quoted(b) + y,
    ensures
        a == b,
        x == y,
{
    let s = quoted(a) + x;
    let pad = Seq::<char>::empty();
    assert(pad + quoted(a) + x =~= s);
    assert(pad + quoted(b) + y =~= s);
    lemma_parse_quoted(pad, a, x);
    lemma_parse_quoted(pad, b, y);
    assert(spec_parse_string(s, 0) == Some((a, 0 + quoted(a).len() as int)));
    assert(spec_parse_string(s, 0) == Some((b, 0 + quoted(b).len() as int)));
    assert(a == b);
    assert(quoted(a).len() == quoted(b).len());
    assert(x =~= y) by {
        assert(forall|k: int|
            0 <= k < x.len() ==> x[k] == (quoted(a) + x)[quoted(a).len() + k]);
        assert(forall|k: int|
            0 <= k < y.len() ==> y[k] == (quoted(b) + y)[quoted(b).len() + k]);
    }
}

/// Equal texts with an equal prefix have equal remainders.
pub proof fn lemma_concat_cancel(p: Seq<char>, x: Seq<char>, y: Seq<char>)
    requires
        p + x == p + y,
    ensures
        x == y,
{
    assert((p + x).len() == p.len() + x.len());
    assert((p + y).len() == p.len() + y.len());
    assert((p + x).len() == (p + y).len());
    assert(x.len() == y.len());
    assert forall|k: int| 0 <= k < x.len() implies x[k] == y[k] by {
        assert((p + x)[p.len() + k] == x[k]);
        assert((p + y)[p.len() + k] == y[k]);
    }
    assert(x =~= y);
}

/// The escape of a string splits at its first character.
proof fn lemma_esc_first(v: Seq<char>)
    requires
        v.len() > 0,
    ensures
        esc(v) == esc_char(v[0]) + esc(v.skip(1)),
    decreases v.len(),
{
    if v.len() == 1 {
        assert(v.drop_last() =~= Seq::<char>::empty());
        assert(v.skip(1) =~= Seq::<char>::empty());
        assert(esc_char(v[0]) + esc(v.skip(1)) =~= esc_char(v[0]));
        assert(esc(v) =~= esc_char(v[0]));
    } else {
        lemma_esc_first(v.drop_last());
        assert(v.drop_last()[0] == v[0]);
        assert(esc(v) == esc(v.drop_last()) + esc_char(v.last()));
        assert(v.drop_last().skip(1) =~= v.skip(1).drop_last());
        assert(esc(v.skip(1)) == esc(v.skip(1).drop_last()) + esc_char(v.skip(1).last())) by {
            assert(v.skip(1).len() > 0);
        }
        assert(v.skip(1).last() == v.last());
        assert(esc(v.drop_last()) + esc_char(v.last()) =~= esc_char(v[0]) + (esc(
            v.skip(1).drop_last(),
        ) + esc_char(v.last())));
    }
}

} // verus!
