//! The durable resume record: a JSON rendering of `DownloadState` with the
//! exact field set, written on every chunk and read back on the next run.
//!
//! The writer produces one canonical rendering; the reader accepts a text
//! only if it is the canonical rendering of the state it returns, and
//! anything else is corrupt — the engine then discards the record and
//! re-initializes, which is always safe.

use vstd::prelude::*;
use crate::state::{PartState, DownloadState};
use crate::text::{
    dec_of, is_dec_digit, push_dec, parse_dec_u64, str_to_chars, chars_to_string, str_eq,
};

verus! {

/// The canonical rendering of one segment.
pub open spec fn json_of_part(p: PartState) -> Seq<char> {
    "{\"index\":"@ + dec_of(p.index as int) + ",\"start_byte\":"@ + dec_of(p.start_byte as int)
        + ",\"end_byte\":"@ + dec_of(p.end_byte as int) + ",\"current_byte\":"@ + dec_of(
        p.current_byte as int,
    ) + ",\"completed\":"@ + (if p.completed {
        "true"@
    } else {
        "false"@
    }) + "}"@
}

/// The canonical rendering of the segment list, comma-joined.
pub open spec fn json_of_parts(parts: Seq<PartState>) -> Seq<char>
    decreases parts.len(),
{
    if parts.len() == 0 {
        Seq::empty()
    } else if parts.len() == 1 {
        json_of_part(parts[0])
    } else {
        json_of_parts(parts.drop_last()) + ","@ + json_of_part(parts.last())
    }
}

/// The canonical rendering of a whole record.
pub open spec fn json_of_state(s: DownloadState) -> Seq<char> {
    "{\"url\":\""@ + s.url@ + "\",\"total_size\":"@ + dec_of(s.total_size as int) + ",\"parts\":["@
        + json_of_parts(s.parts@) + "]}"@
}

/// Appends the characters of `s`.
fn push_str(out: &mut Vec<char>, s: &str)
    ensures
        final(out)@ == old(out)@ + s@,
{
    let sv = str_to_chars(s);
    let mut i: usize = 0;
    while i < sv.len()
        invariant
            sv@ == s@,
            i <= sv@.len(),
            out@ == old(out)@ + sv@.subrange(0, i as int),
        decreases sv@.len() - i,
    {
        out.push(sv[i]);
        i = i + 1;
        proof {
            assert(out@ =~= old(out)@ + sv@.subrange(0, i as int));
        }
    }
    proof {
        assert(out@ =~= old(out)@ + s@);
    }
}

fn push_part(out: &mut Vec<char>, p: &PartState)
    ensures
        final(out)@ == old(out)@ + json_of_part(*p),
{
    push_str(out, "{\"index\":");
    push_dec(p.index as u64, out);
    push_str(out, ",\"start_byte\":");
    push_dec(p.start_byte, out);
    push_str(out, ",\"end_byte\":");
    push_dec(p.end_byte, out);
    push_str(out, ",\"current_byte\":");
    push_dec(p.current_byte, out);
    push_str(out, ",\"completed\":");
    if p.completed {
        push_str(out, "true");
    } else {
        push_str(out, "false");
    }
    push_str(out, "}");
    proof {
        assert(out@ =~= old(out)@ + json_of_part(*p));
    }
}

/// Renders the record in its canonical form.
pub fn serialize_state(s: &DownloadState) -> (r: String)
    ensures
        r@ == json_of_state(*s),
{
    let mut out: Vec<char> = Vec::new();
    push_str(&mut out, "{\"url\":\"");
    push_str(&mut out, s.url.as_str());
    push_str(&mut out, "\",\"total_size\":");
    push_dec(s.total_size, &mut out);
    push_str(&mut out, ",\"parts\":[");
    let ghost head = out@;
    let mut i: usize = 0;
    proof {
        assert(json_of_parts(s.parts@.take(0)) =~= Seq::<char>::empty());
        assert(out@ =~= head + json_of_parts(s.parts@.take(0)));
    }
    while i < s.parts.len()
        invariant
            i <= s.parts@.len(),
            out@ == head + json_of_parts(s.parts@.take(i as int)),
        decreases s.parts@.len() - i,
    {
        if i > 0 {
            push_str(&mut out, ",");
        }
        push_part(&mut out, &s.parts[i]);
        proof {
            assert(s.parts@.take(i + 1).drop_last() =~= s.parts@.take(i as int));
            assert(s.parts@.take(i + 1).last() == s.parts@[i as int]);
            if i == 0 {
                assert(s.parts@.take(1)[0] == s.parts@[0]);
                assert(out@ =~= head + json_of_parts(s.parts@.take(1)));
            } else {
                assert(out@ =~= head + json_of_parts(s.parts@.take(i + 1)));
            }
        }
        i = i + 1;
    }
    proof {
        assert(s.parts@.take(s.parts@.len() as int) =~= s.parts@);
    }
    push_str(&mut out, "]}");
    proof {
        assert(out@ =~= json_of_state(*s));
    }
    chars_to_string(&out)
}

/// Consumes exactly `lit` at `pos`: succeeds if and only if it is there.
fn expect_lit(v: &Vec<char>, pos: usize, lit: &str) -> (r: Option<usize>)
    requires
        pos <= v@.len(),
    ensures
        match r {
            Some(p) => p == pos + lit@.len() && p <= v@.len() && v@.subrange(pos as int, p as int)
                == lit@,
            None => true,
        },
        (pos + lit@.len() <= v@.len() && v@.subrange(pos as int, pos + lit@.len()) == lit@) ==> r
            == Some((pos + lit@.len()) as usize),
{
    let lv = str_to_chars(lit);
    let n = v.len();
    if lv.len() > n - pos {
        return None;
    }
    let mut i: usize = 0;
    while i < lv.len()
        invariant
            i <= lv@.len(),
            lv@ == lit@,
            n == v@.len(),
            pos + lv@.len() <= n,
            forall|k: int| 0 <= k < i ==> v@[pos + k] == lv@[k],
        decreases lv@.len() - i,
    {
        if v[pos + i] != lv[i] {
            proof {
                if pos + lit@.len() <= v@.len() && v@.subrange(pos as int, pos + lit@.len())
                    == lit@ {
                    assert(v@.subrange(pos as int, pos + lit@.len())[i as int] == v@[pos + i]);
                }
            }
            return None;
        }
        i = i + 1;
    }
    proof {
        assert(v@.subrange(pos as int, pos + lit@.len()) =~= lit@);
    }
    Some(pos + lv.len())
}

/// The scan boundary of the string reader: the first `"` or `\` at or after
/// `pos`.
pub open spec fn string_stop(s: Seq<char>, pos: int) -> int {
    let q = crate::text::find_from(s, pos, '"');
    let b = crate::text::find_from(s, pos, '\\');
    if q < b {
        q
    } else {
        b
    }
}

/// Reads characters up to the next `"`; a backslash or a missing quote is
/// corrupt. Succeeds if and only if a quote comes before any backslash.
fn take_string(v: &Vec<char>, pos: usize) -> (r: Option<(Vec<char>, usize)>)
    requires
        pos <= v@.len(),
    ensures
        r is Some <==> (string_stop(v@, pos as int) < v@.len() && v@[string_stop(v@, pos as int)]
            == '"'),
        r is Some ==> ({
            let (s, p) = r->Some_0;
            &&& p == string_stop(v@, pos as int) + 1
            &&& p <= v@.len()
            &&& pos < p
            &&& s@ == v@.subrange(pos as int, string_stop(v@, pos as int))
        }),
{
    proof {
        crate::text::lemma_find_from(v@, pos as int, '"');
        crate::text::lemma_find_from(v@, pos as int, '\\');
    }
    let mut out: Vec<char> = Vec::new();
    let mut p: usize = pos;
    while p < v.len() && v[p] != '"' && v[p] != '\\'
        invariant
            pos <= p <= v@.len(),
            out@ == v@.subrange(pos as int, p as int),
            crate::text::find_from(v@, pos as int, '"') == crate::text::find_from(
                v@,
                p as int,
                '"',
            ),
            crate::text::find_from(v@, pos as int, '\\') == crate::text::find_from(
                v@,
                p as int,
                '\\',
            ),
        decreases v@.len() - p,
    {
        out.push(v[p]);
        p = p + 1;
        proof {
            assert(out@ =~= v@.subrange(pos as int, p as int));
        }
    }
    proof {
        crate::text::lemma_find_from(v@, p as int, '"');
        crate::text::lemma_find_from(v@, p as int, '\\');
    }
    if p == v.len() {
        return None;
    }
    if v[p] == '\\' {
        return None;
    }
    Some((out, p + 1))
}

/// The rendering of a flag.
pub open spec fn json_of_bool(b: bool) -> Seq<char> {
    if b {
        "true"@
    } else {
        "false"@
    }
}

/// Consumes `true` or `false`: succeeds on exactly those renderings.
fn take_bool(v: &Vec<char>, pos: usize) -> (r: Option<(bool, usize)>)
    requires
        pos <= v@.len(),
    ensures
        match r {
            Some((b, p)) => pos < p <= v@.len() && p == pos + json_of_bool(b).len()
                && v@.subrange(pos as int, p as int) == json_of_bool(b),
            None => true,
        },
        forall|b: bool|
            (pos + json_of_bool(b).len() <= v@.len() && v@.subrange(
                pos as int,
                pos + json_of_bool(b).len(),
            ) == #[trigger] json_of_bool(b)) ==> r == Some(
                (b, (pos + json_of_bool(b).len()) as usize),
            ),
{
    proof {
        reveal_strlit("true");
        reveal_strlit("false");
    }
    match expect_lit(v, pos, "true") {
        Some(p) => {
            proof {
                assert forall|b: bool|
                    (pos + json_of_bool(b).len() <= v@.len() && v@.subrange(
                        pos as int,
                        pos + json_of_bool(b).len(),
                    ) == #[trigger] json_of_bool(b)) implies Some((true, p)) == Some::<
                    (bool, usize),
                >((b, (pos + json_of_bool(b).len()) as usize)) by {
                    if !b {
                        assert(v@.subrange(pos as int, pos + json_of_bool(b).len())[0] == v@[pos as int]);
                        assert(v@[pos as int] == 'f');
                        assert(v@.subrange(pos as int, p as int)[0] == 't');
                        assert(false);
                    }
                }
            }
            Some((true, p))
        },
        None => match expect_lit(v, pos, "false") {
            Some(p) => {
                proof {
                    assert forall|b: bool|
                        (pos + json_of_bool(b).len() <= v@.len() && v@.subrange(
                            pos as int,
                            pos + json_of_bool(b).len(),
                        ) == #[trigger] json_of_bool(b)) implies Some((false, p)) == Some::<
                        (bool, usize),
                    >((b, (pos + json_of_bool(b).len()) as usize)) by {
                        if b {
                            assert(v@.subrange(pos as int, pos + json_of_bool(b).len())[0] == v@[pos as int]);
                            assert(v@[pos as int] == 't');
                            assert(v@.subrange(pos as int, p as int)[0] == 'f');
                            assert(false);
                        }
                    }
                }
                Some((false, p))
            },
            None => None,
        },
    }
}

/// Splitting a region known to hold a two-piece concatenation yields each
/// piece in place.
proof fn lemma_concat_slice(v: Seq<char>, pos: int, a: Seq<char>, b: Seq<char>)
    requires
        0 <= pos,
        pos + a.len() + b.len() <= v.len(),
        v.subrange(pos, pos + a.len() + b.len()) == a + b,
    ensures
        v.subrange(pos, pos + a.len()) == a,
        v.subrange(pos + a.len(), pos + a.len() + b.len()) == b,
{
    assert forall|i: int| 0 <= i < a.len() implies v.subrange(pos, pos + a.len())[i] == a[i] by {
        assert(v.subrange(pos, pos + a.len())[i] == v.subrange(pos, pos + a.len() + b.len())[i]);
        assert(v.subrange(pos, pos + a.len() + b.len())[i] == (a + b)[i]);
    }
    assert(v.subrange(pos, pos + a.len()) =~= a);
    assert forall|i: int| 0 <= i < b.len() implies v.subrange(
        pos + a.len(),
        pos + a.len() + b.len(),
    )[i] == b[i] by {
        assert(v.subrange(pos + a.len(), pos + a.len() + b.len())[i] == v.subrange(
            pos,
            pos + a.len() + b.len(),
        )[a.len() + i]);
        assert(v.subrange(pos, pos + a.len() + b.len())[a.len() + i] == (a + b)[a.len() + i]);
    }
    assert(v.subrange(pos + a.len(), pos + a.len() + b.len()) =~= b);
}

/// The first character of a region known to hold `lit`.
proof fn lemma_region_head(v: Seq<char>, lo: int, hi: int, lit: Seq<char>)
    requires
        0 <= lo < hi <= v.len(),
        v.subrange(lo, hi) == lit,
        lit.len() == hi - lo,
    ensures
        v[lo] == lit[0],
{
    assert(v.subrange(lo, hi)[0] == v[lo]);
}

/// A string the record format writes verbatim: free of quotes and
/// backslashes, as URL syntax already guarantees.
pub open spec fn json_safe(s: Seq<char>) -> bool {
    forall|k: int| 0 <= k < s.len() ==> s[k] != '"' && s[k] != '\\'
}

/// A segment rendering opens with its brace.
proof fn lemma_part_head_char(p: PartState)
    ensures
        json_of_part(p).len() >= 1,
        json_of_part(p)[0] == '{',
{
    reveal_strlit("{\"index\":");
    let d1 = dec_of(p.index as int);
    let d2 = dec_of(p.start_byte as int);
    let d3 = dec_of(p.end_byte as int);
    let d4 = dec_of(p.current_byte as int);
    let bb = json_of_bool(p.completed);
    let s1 = "{\"index\":"@ + d1;
    let s2 = s1 + ",\"start_byte\":"@;
    let s3 = s2 + d2;
    let s4 = s3 + ",\"end_byte\":"@;
    let s5 = s4 + d3;
    let s6 = s5 + ",\"current_byte\":"@;
    let s7 = s6 + d4;
    let s8 = s7 + ",\"completed\":"@;
    let s9 = s8 + bb;
    assert(json_of_part(p) == s9 + "}"@);
    assert((s9 + "}"@)[0] == s9[0]);
    assert(s9[0] == s8[0]);
    assert(s8[0] == s7[0]);
    assert(s7[0] == s6[0]);
    assert(s6[0] == s5[0]);
    assert(s5[0] == s4[0]);
    assert(s4[0] == s3[0]);
    assert(s3[0] == s2[0]);
    assert(s2[0] == s1[0]);
    assert(s1[0] == "{\"index\":"@[0]);
}

/// Where each piece of a record sits in its rendering; the segment region
/// opens with a brace when there are segments and closes on the bracket.
#[verifier::rlimit(100)]
proof fn lemma_record_shape(v: Seq<char>, st: DownloadState)
    requires
        json_safe(st.url@),
        v == json_of_state(st),
    ensures
        ({
            let u = st.url@;
            let d = dec_of(st.total_size as int);
            let e = json_of_parts(st.parts@);
            let a1 = 8 + u.len() as int;
            let a4 = a1 + 25 + d.len();
            &&& d.len() >= 1
            &&& v.len() == a4 + e.len() + 2
            &&& v.subrange(0, 8) == "{\"url\":\""@
            &&& string_stop(v, 8) == a1
            &&& a1 < v.len()
            &&& v[a1] == '"'
            &&& v.subrange(8, a1) == u
            &&& v.subrange(a1 + 1, a1 + 15) == ",\"total_size\":"@
            &&& v.subrange(a1 + 15, a1 + 15 + d.len()) == d
            &&& !is_dec_digit(v[a1 + 15 + d.len()])
            &&& v.subrange(a1 + 15 + d.len(), a4) == ",\"parts\":["@
            &&& v.subrange(a4, a4 + e.len()) == e
            &&& v[a4 + e.len()] == ']'
            &&& v.subrange(a4 + e.len(), a4 + e.len() + 2) == "]}"@
            &&& (st.parts@.len() == 0 ==> v[a4] == ']')
            &&& (st.parts@.len() >= 1 ==> v[a4] == '{')
        }),
{
    reveal_strlit("{\"url\":\"");
    reveal_strlit("\",\"total_size\":");
    reveal_strlit(",\"total_size\":");
    reveal_strlit(",\"parts\":[");
    reveal_strlit("]}");
    crate::text::lemma_dec_len_pos(st.total_size as int);
    crate::text::lemma_dec_digits(st.total_size as int);
    let u = st.url@;
    let d = dec_of(st.total_size as int);
    let e = json_of_parts(st.parts@);
    let a1 = 8 + u.len() as int;
    let a4 = a1 + 25 + d.len();
    let t1 = "{\"url\":\""@ + u;
    let t2 = t1 + "\",\"total_size\":"@;
    let t3 = t2 + d;
    let t4 = t3 + ",\"parts\":["@;
    let t5 = t4 + e;
    assert(v == t5 + "]}"@);
    assert(v.subrange(0, v.len() as int) =~= v);
    lemma_concat_slice(v, 0, t5, "]}"@);
    lemma_concat_slice(v, 0, t4, e);
    lemma_concat_slice(v, 0, t3, ",\"parts\":["@);
    lemma_concat_slice(v, 0, t2, d);
    lemma_concat_slice(v, 0, t1, "\",\"total_size\":"@);
    lemma_concat_slice(v, 0, "{\"url\":\""@, u);
    assert(",\"total_size\":"@ =~= "\",\"total_size\":"@.subrange(1, 15));
    assert(v.subrange(a1 + 1, a1 + 15) =~= ",\"total_size\":"@);
    lemma_region_head(v, a1, a1 + 15, "\",\"total_size\":"@);
    lemma_region_head(v, a1 + 15 + d.len(), a4, ",\"parts\":["@);
    lemma_region_head(v, a4 + e.len(), a4 + e.len() + 2, "]}"@);
    if st.parts@.len() >= 1 {
        lemma_parts_prefix(st.parts@, 1);
        lemma_parts_front(st.parts@, 0);
        lemma_part_head_char(st.parts@[0]);
        assert(e[0] == json_of_part(st.parts@[0])[0]);
        lemma_region_head(v, a4, a4 + e.len(), e);
    }
    crate::text::lemma_find_from(v, 8, '"');
    crate::text::lemma_find_from(v, 8, '\\');
    let fq = crate::text::find_from(v, 8, '"');
    if fq < a1 {
        assert(v[fq] == u[fq - 8]);
        assert(false);
    }
    if fq > a1 {
        assert(v[a1] != '"');
        assert(false);
    }
    let fb = crate::text::find_from(v, 8, '\\');
    if fb < a1 {
        assert(v[fb] == u[fb - 8]);
        assert(false);
    }
    if fb == a1 {
        assert(false);
    }
}

/// Where each piece of one segment record sits in its rendering.
#[verifier::rlimit(100)]
proof fn lemma_part_shape(v: Seq<char>, pos: int, p: PartState)
    requires
        0 <= pos,
        pos + json_of_part(p).len() <= v.len(),
        v.subrange(pos, pos + json_of_part(p).len()) == json_of_part(p),
    ensures
        ({
            let d1 = dec_of(p.index as int);
            let d2 = dec_of(p.start_byte as int);
            let d3 = dec_of(p.end_byte as int);
            let d4 = dec_of(p.current_byte as int);
            let b = json_of_bool(p.completed);
            let o1 = pos + 9;
            let o2 = o1 + d1.len();
            let o3 = o2 + 14;
            let o4 = o3 + d2.len();
            let o5 = o4 + 12;
            let o6 = o5 + d3.len();
            let o7 = o6 + 16;
            let o8 = o7 + d4.len();
            let o9 = o8 + 13;
            let o10 = o9 + b.len();
            &&& d1.len() >= 1 && d2.len() >= 1 && d3.len() >= 1 && d4.len() >= 1
            &&& o10 + 1 == pos + json_of_part(p).len()
            &&& pos + json_of_part(p).len() <= v.len()
            &&& v.subrange(pos, o1) == "{\"index\":"@
            &&& v.subrange(o1, o2) == d1
            &&& !is_dec_digit(v[o2])
            &&& v.subrange(o2, o3) == ",\"start_byte\":"@
            &&& v.subrange(o3, o4) == d2
            &&& !is_dec_digit(v[o4])
            &&& v.subrange(o4, o5) == ",\"end_byte\":"@
            &&& v.subrange(o5, o6) == d3
            &&& !is_dec_digit(v[o6])
            &&& v.subrange(o6, o7) == ",\"current_byte\":"@
            &&& v.subrange(o7, o8) == d4
            &&& !is_dec_digit(v[o8])
            &&& v.subrange(o8, o9) == ",\"completed\":"@
            &&& v.subrange(o9, o10) == b
            &&& v.subrange(o10, o10 + 1) == "}"@
        }),
{
    reveal_strlit("{\"index\":");
    reveal_strlit(",\"start_byte\":");
    reveal_strlit(",\"end_byte\":");
    reveal_strlit(",\"current_byte\":");
    reveal_strlit(",\"completed\":");
    reveal_strlit("}");
    reveal_strlit("true");
    reveal_strlit("false");
    crate::text::lemma_dec_len_pos(p.index as int);
    crate::text::lemma_dec_len_pos(p.start_byte as int);
    crate::text::lemma_dec_len_pos(p.end_byte as int);
    crate::text::lemma_dec_len_pos(p.current_byte as int);
    let d1 = dec_of(p.index as int);
    let d2 = dec_of(p.start_byte as int);
    let d3 = dec_of(p.end_byte as int);
    let d4 = dec_of(p.current_byte as int);
    let b = json_of_bool(p.completed);
    let s1 = "{\"index\":"@ + d1;
    let s2 = s1 + ",\"start_byte\":"@;
    let s3 = s2 + d2;
    let s4 = s3 + ",\"end_byte\":"@;
    let s5 = s4 + d3;
    let s6 = s5 + ",\"current_byte\":"@;
    let s7 = s6 + d4;
    let s8 = s7 + ",\"completed\":"@;
    let s9 = s8 + b;
    assert(json_of_part(p) == s9 + "}"@);
    lemma_concat_slice(v, pos, s9, "}"@);
    lemma_concat_slice(v, pos, s8, b);
    lemma_concat_slice(v, pos, s7, ",\"completed\":"@);
    lemma_concat_slice(v, pos, s6, d4);
    lemma_concat_slice(v, pos, s5, ",\"current_byte\":"@);
    lemma_concat_slice(v, pos, s4, d3);
    lemma_concat_slice(v, pos, s3, ",\"end_byte\":"@);
    lemma_concat_slice(v, pos, s2, d2);
    lemma_concat_slice(v, pos, s1, ",\"start_byte\":"@);
    lemma_concat_slice(v, pos, "{\"index\":"@, d1);
    let o1 = pos + 9;
    let o2 = o1 + d1.len();
    let o3 = o2 + 14;
    let o4 = o3 + d2.len();
    let o5 = o4 + 12;
    let o6 = o5 + d3.len();
    let o7 = o6 + 16;
    let o8 = o7 + d4.len();
    let o9 = o8 + 13;
    lemma_region_head(v, o2, o3, ",\"start_byte\":"@);
    lemma_region_head(v, o4, o5, ",\"end_byte\":"@);
    lemma_region_head(v, o6, o7, ",\"current_byte\":"@);
    lemma_region_head(v, o8, o9, ",\"completed\":"@);
}

/// Reads the index and start fields of one segment record.
#[verifier::rlimit(100)]
fn take_part_nums_a(v: &Vec<char>, pos: usize) -> (r: Option<((u64, u64), usize)>)
    requires
        pos <= v@.len(),
    ensures
        match r {
            Some((_, p)) => pos < p <= v@.len(),
            None => true,
        },
        forall|p: PartState|
            (pos + json_of_part(p).len() <= v@.len() && v@.subrange(pos as int, pos + json_of_part(p).len()) == #[trigger] json_of_part(p)) ==> r == Some(((p.index as u64, p.start_byte), (pos + 23 + dec_of(p.index as int).len() + dec_of(p.start_byte as int).len()) as usize)),
{
    let p0 = match expect_lit(v, pos, "{\"index\":") {
        Some(p) => p,
        None => {
            proof {
                assert forall|p: PartState| !(pos + json_of_part(p).len() <= v@.len() && v@.subrange(pos as int, pos + json_of_part(p).len()) == #[trigger] json_of_part(p)) by {
                    if pos + json_of_part(p).len() <= v@.len() && v@.subrange(pos as int, pos + json_of_part(p).len()) == json_of_part(p) {
                        lemma_part_shape(v@, pos as int, p);
                vstd::std_specs::vec::axiom_spec_len(v);
                        vstd::std_specs::vec::axiom_spec_len(v);
                    let d1 = dec_of(p.index as int);
                    let d2 = dec_of(p.start_byte as int);
                    let d3 = dec_of(p.end_byte as int);
                    let d4 = dec_of(p.current_byte as int);
                    let bb = json_of_bool(p.completed);
                    let o1 = pos as int + 9;
                    let o2 = o1 + d1.len();
                    let o3 = o2 + 14;
                    let o4 = o3 + d2.len();
                    let o5 = o4 + 12;
                    let o6 = o5 + d3.len();
                    let o7 = o6 + 16;
                    let o8 = o7 + d4.len();
                    let o9 = o8 + 13;
                    let o10 = o9 + bb.len();
                        assert(false);
                    }
                }
            }
            return None;
        },
    };
    let (index64, p1) = match parse_dec_u64(v, p0) {
        Some(x) => x,
        None => {
            proof {
                assert forall|p: PartState| !(pos + json_of_part(p).len() <= v@.len() && v@.subrange(pos as int, pos + json_of_part(p).len()) == #[trigger] json_of_part(p)) by {
                    if pos + json_of_part(p).len() <= v@.len() && v@.subrange(pos as int, pos + json_of_part(p).len()) == json_of_part(p) {
                        lemma_part_shape(v@, pos as int, p);
                vstd::std_specs::vec::axiom_spec_len(v);
                        vstd::std_specs::vec::axiom_spec_len(v);
                    let d1 = dec_of(p.index as int);
                    let d2 = dec_of(p.start_byte as int);
                    let d3 = dec_of(p.end_byte as int);
                    let d4 = dec_of(p.current_byte as int);
                    let bb = json_of_bool(p.completed);
                    let o1 = pos as int + 9;
                    let o2 = o1 + d1.len();
                    let o3 = o2 + 14;
                    let o4 = o3 + d2.len();
                    let o5 = o4 + 12;
                    let o6 = o5 + d3.len();
                    let o7 = o6 + 16;
                    let o8 = o7 + d4.len();
                    let o9 = o8 + 13;
                    let o10 = o9 + bb.len();
                    assert(p0 == pos + 9);
                        assert(false);
                    }
                }
            }
            return None;
        },
    };
    let p2 = match expect_lit(v, p1, ",\"start_byte\":") {
        Some(p) => p,
        None => {
            proof {
                assert forall|p: PartState| !(pos + json_of_part(p).len() <= v@.len() && v@.subrange(pos as int, pos + json_of_part(p).len()) == #[trigger] json_of_part(p)) by {
                    if pos + json_of_part(p).len() <= v@.len() && v@.subrange(pos as int, pos + json_of_part(p).len()) == json_of_part(p) {
                        lemma_part_shape(v@, pos as int, p);
                vstd::std_specs::vec::axiom_spec_len(v);
                        vstd::std_specs::vec::axiom_spec_len(v);
                    let d1 = dec_of(p.index as int);
                    let d2 = dec_of(p.start_byte as int);
                    let d3 = dec_of(p.end_byte as int);
                    let d4 = dec_of(p.current_byte as int);
                    let bb = json_of_bool(p.completed);
                    let o1 = pos as int + 9;
                    let o2 = o1 + d1.len();
                    let o3 = o2 + 14;
                    let o4 = o3 + d2.len();
                    let o5 = o4 + 12;
                    let o6 = o5 + d3.len();
                    let o7 = o6 + 16;
                    let o8 = o7 + d4.len();
                    let o9 = o8 + 13;
                    let o10 = o9 + bb.len();
                    assert(p0 == pos + 9);
                    let x1: u64 = p.index as u64;
                    assert(dec_of(x1 as int) == d1);
                    assert(v@.subrange(p0 as int, p0 + dec_of(x1 as int).len()) == dec_of(x1 as int));
                    assert(!is_dec_digit(v@[p0 + dec_of(x1 as int).len()]));
                    assert(index64 == x1 && p1 as int == o2);
                        assert(false);
                    }
                }
            }
            return None;
        },
    };
    let (start_byte, p3) = match parse_dec_u64(v, p2) {
        Some(x) => x,
        None => {
            proof {
                assert forall|p: PartState| !(pos + json_of_part(p).len() <= v@.len() && v@.subrange(pos as int, pos + json_of_part(p).len()) == #[trigger] json_of_part(p)) by {
                    if pos + json_of_part(p).len() <= v@.len() && v@.subrange(pos as int, pos + json_of_part(p).len()) == json_of_part(p) {
                        lemma_part_shape(v@, pos as int, p);
                vstd::std_specs::vec::axiom_spec_len(v);
                        vstd::std_specs::vec::axiom_spec_len(v);
                    let d1 = dec_of(p.index as int);
                    let d2 = dec_of(p.start_byte as int);
                    let d3 = dec_of(p.end_byte as int);
                    let d4 = dec_of(p.current_byte as int);
                    let bb = json_of_bool(p.completed);
                    let o1 = pos as int + 9;
                    let o2 = o1 + d1.len();
                    let o3 = o2 + 14;
                    let o4 = o3 + d2.len();
                    let o5 = o4 + 12;
                    let o6 = o5 + d3.len();
                    let o7 = o6 + 16;
                    let o8 = o7 + d4.len();
                    let o9 = o8 + 13;
                    let o10 = o9 + bb.len();
                    assert(p0 == pos + 9);
                    let x1: u64 = p.index as u64;
                    assert(dec_of(x1 as int) == d1);
                    assert(v@.subrange(p0 as int, p0 + dec_of(x1 as int).len()) == dec_of(x1 as int));
                    assert(!is_dec_digit(v@[p0 + dec_of(x1 as int).len()]));
                    assert(index64 == x1 && p1 as int == o2);
                    assert(p2 as int == o3);
                        assert(false);
                    }
                }
            }
            return None;
        },
    };
    proof {
        assert forall|p: PartState| (pos + json_of_part(p).len() <= v@.len() && v@.subrange(pos as int, pos + json_of_part(p).len()) == #[trigger] json_of_part(p)) implies Some(((index64, start_byte), p3)) == Some::<
            ((u64, u64), usize),
        >(((p.index as u64, p.start_byte), (pos + 23 + dec_of(p.index as int).len() + dec_of(p.start_byte as int).len()) as usize)) by {
            if pos + json_of_part(p).len() <= v@.len() && v@.subrange(pos as int, pos + json_of_part(p).len()) == json_of_part(p) {
                lemma_part_shape(v@, pos as int, p);
                vstd::std_specs::vec::axiom_spec_len(v);
                    let d1 = dec_of(p.index as int);
                    let d2 = dec_of(p.start_byte as int);
                    let d3 = dec_of(p.end_byte as int);
                    let d4 = dec_of(p.current_byte as int);
                    let bb = json_of_bool(p.completed);
                    let o1 = pos as int + 9;
                    let o2 = o1 + d1.len();
                    let o3 = o2 + 14;
                    let o4 = o3 + d2.len();
                    let o5 = o4 + 12;
                    let o6 = o5 + d3.len();
                    let o7 = o6 + 16;
                    let o8 = o7 + d4.len();
                    let o9 = o8 + 13;
                    let o10 = o9 + bb.len();
                    assert(p0 == pos + 9);
                    let x1: u64 = p.index as u64;
                    assert(dec_of(x1 as int) == d1);
                    assert(v@.subrange(p0 as int, p0 + dec_of(x1 as int).len()) == dec_of(x1 as int));
                    assert(!is_dec_digit(v@[p0 + dec_of(x1 as int).len()]));
                    assert(index64 == x1 && p1 as int == o2);
                    assert(p2 as int == o3);
                    assert(v@.subrange(p2 as int, p2 + d2.len()) == d2);
                    assert(!is_dec_digit(v@[p2 + d2.len()]));
                    assert(start_byte == p.start_byte && p3 as int == o4);
                assert(o4 <= v@.len());
            }
        }
    }
    Some(((index64, start_byte), p3))
}

/// Reads the end and cursor fields of one segment record, from the comma
/// before the end field: it succeeds on exactly that two-number shape.
#[verifier::rlimit(100)]
fn take_part_nums_b(v: &Vec<char>, q: usize) -> (r: Option<((u64, u64), usize)>)
    requires
        q <= v@.len(),
    ensures
        match r {
            Some((_, p)) => q < p <= v@.len(),
            None => true,
        },
        forall|x3: u64, x4: u64|
            #![trigger dec_of(x3 as int), dec_of(x4 as int)]
            (q + 28 + dec_of(x3 as int).len() + dec_of(x4 as int).len() <= v@.len()
                && v@.subrange(q as int, q + 12) == ",\"end_byte\":"@
                && v@.subrange(q + 12, q + 12 + dec_of(x3 as int).len()) == dec_of(x3 as int)
                && !is_dec_digit(v@[q + 12 + dec_of(x3 as int).len()])
                && v@.subrange(
                    q + 12 + dec_of(x3 as int).len(),
                    q + 28 + dec_of(x3 as int).len(),
                ) == ",\"current_byte\":"@
                && v@.subrange(
                    q + 28 + dec_of(x3 as int).len(),
                    q + 28 + dec_of(x3 as int).len() + dec_of(x4 as int).len(),
                ) == dec_of(x4 as int)
                && (q + 28 + dec_of(x3 as int).len() + dec_of(x4 as int).len() == v@.len()
                || !is_dec_digit(v@[q + 28 + dec_of(x3 as int).len() + dec_of(x4 as int).len()]))) ==> r == Some(((x3, x4), (q + 28 + dec_of(x3 as int).len() + dec_of(x4 as int).len()) as usize)),
{
    let p4 = match expect_lit(v, q, ",\"end_byte\":") {
        Some(p) => p,
        None => {
            proof {
                assert forall|x3: u64, x4: u64|
                    #![trigger dec_of(x3 as int), dec_of(x4 as int)]
                    !(q + 28 + dec_of(x3 as int).len() + dec_of(x4 as int).len() <= v@.len()
                && v@.subrange(q as int, q + 12) == ",\"end_byte\":"@
                && v@.subrange(q + 12, q + 12 + dec_of(x3 as int).len()) == dec_of(x3 as int)
                && !is_dec_digit(v@[q + 12 + dec_of(x3 as int).len()])
                && v@.subrange(
                    q + 12 + dec_of(x3 as int).len(),
                    q + 28 + dec_of(x3 as int).len(),
                ) == ",\"current_byte\":"@
                && v@.subrange(
                    q + 28 + dec_of(x3 as int).len(),
                    q + 28 + dec_of(x3 as int).len() + dec_of(x4 as int).len(),
                ) == dec_of(x4 as int)
                && (q + 28 + dec_of(x3 as int).len() + dec_of(x4 as int).len() == v@.len()
                || !is_dec_digit(v@[q + 28 + dec_of(x3 as int).len() + dec_of(x4 as int).len()]))) by {
                }
            }
            return None;
        },
    };
    let (end_byte, p5) = match parse_dec_u64(v, p4) {
        Some(x) => x,
        None => {
            proof {
                assert forall|x3: u64, x4: u64|
                    #![trigger dec_of(x3 as int), dec_of(x4 as int)]
                    !(q + 28 + dec_of(x3 as int).len() + dec_of(x4 as int).len() <= v@.len()
                && v@.subrange(q as int, q + 12) == ",\"end_byte\":"@
                && v@.subrange(q + 12, q + 12 + dec_of(x3 as int).len()) == dec_of(x3 as int)
                && !is_dec_digit(v@[q + 12 + dec_of(x3 as int).len()])
                && v@.subrange(
                    q + 12 + dec_of(x3 as int).len(),
                    q + 28 + dec_of(x3 as int).len(),
                ) == ",\"current_byte\":"@
                && v@.subrange(
                    q + 28 + dec_of(x3 as int).len(),
                    q + 28 + dec_of(x3 as int).len() + dec_of(x4 as int).len(),
                ) == dec_of(x4 as int)
                && (q + 28 + dec_of(x3 as int).len() + dec_of(x4 as int).len() == v@.len()
                || !is_dec_digit(v@[q + 28 + dec_of(x3 as int).len() + dec_of(x4 as int).len()]))) by {
                }
            }
            return None;
        },
    };
    let p6 = match expect_lit(v, p5, ",\"current_byte\":") {
        Some(p) => p,
        None => {
            proof {
                assert forall|x3: u64, x4: u64|
                    #![trigger dec_of(x3 as int), dec_of(x4 as int)]
                    !(q + 28 + dec_of(x3 as int).len() + dec_of(x4 as int).len() <= v@.len()
                && v@.subrange(q as int, q + 12) == ",\"end_byte\":"@
                && v@.subrange(q + 12, q + 12 + dec_of(x3 as int).len()) == dec_of(x3 as int)
                && !is_dec_digit(v@[q + 12 + dec_of(x3 as int).len()])
                && v@.subrange(
                    q + 12 + dec_of(x3 as int).len(),
                    q + 28 + dec_of(x3 as int).len(),
                ) == ",\"current_byte\":"@
                && v@.subrange(
                    q + 28 + dec_of(x3 as int).len(),
                    q + 28 + dec_of(x3 as int).len() + dec_of(x4 as int).len(),
                ) == dec_of(x4 as int)
                && (q + 28 + dec_of(x3 as int).len() + dec_of(x4 as int).len() == v@.len()
                || !is_dec_digit(v@[q + 28 + dec_of(x3 as int).len() + dec_of(x4 as int).len()]))) by {
                }
            }
            return None;
        },
    };
    let (current_byte, p7) = match parse_dec_u64(v, p6) {
        Some(x) => x,
        None => {
            proof {
                assert forall|x3: u64, x4: u64|
                    #![trigger dec_of(x3 as int), dec_of(x4 as int)]
                    !(q + 28 + dec_of(x3 as int).len() + dec_of(x4 as int).len() <= v@.len()
                && v@.subrange(q as int, q + 12) == ",\"end_byte\":"@
                && v@.subrange(q + 12, q + 12 + dec_of(x3 as int).len()) == dec_of(x3 as int)
                && !is_dec_digit(v@[q + 12 + dec_of(x3 as int).len()])
                && v@.subrange(
                    q + 12 + dec_of(x3 as int).len(),
                    q + 28 + dec_of(x3 as int).len(),
                ) == ",\"current_byte\":"@
                && v@.subrange(
                    q + 28 + dec_of(x3 as int).len(),
                    q + 28 + dec_of(x3 as int).len() + dec_of(x4 as int).len(),
                ) == dec_of(x4 as int)
                && (q + 28 + dec_of(x3 as int).len() + dec_of(x4 as int).len() == v@.len()
                || !is_dec_digit(v@[q + 28 + dec_of(x3 as int).len() + dec_of(x4 as int).len()]))) by {
                }
            }
            return None;
        },
    };
    Some(((end_byte, current_byte), p7))
}

/// Reads the four number fields of one segment record; on exactly a segment
/// rendering it hands back that segment's numbers, with the cursor before the
/// completion flag.
#[verifier::rlimit(100)]
fn take_part_nums(v: &Vec<char>, pos: usize) -> (r: Option<((u64, u64, u64, u64), usize)>)
    requires
        pos <= v@.len(),
    ensures
        match r {
            Some((_, p)) => pos < p <= v@.len(),
            None => true,
        },
        forall|p: PartState|
            (pos + json_of_part(p).len() <= v@.len() && v@.subrange(pos as int, pos + json_of_part(p).len()) == #[trigger] json_of_part(p)) ==> r == Some(
                ((p.index as u64, p.start_byte, p.end_byte, p.current_byte), (pos + 51 + dec_of(p.index as int).len() + dec_of(p.start_byte as int).len() + dec_of(p.end_byte as int).len() + dec_of(p.current_byte as int).len()) as usize),
            ),
{
    let ((index64, start_byte), p3) = match take_part_nums_a(v, pos) {
        Some(x) => x,
        None => {
            return None;
        },
    };
    let ((end_byte, current_byte), p7) = match take_part_nums_b(v, p3) {
        Some(x) => x,
        None => {
            proof {
                assert forall|p: PartState| !(pos + json_of_part(p).len() <= v@.len() && v@.subrange(pos as int, pos + json_of_part(p).len()) == #[trigger] json_of_part(p)) by {
                    if pos + json_of_part(p).len() <= v@.len() && v@.subrange(pos as int, pos + json_of_part(p).len()) == json_of_part(p) {
                        lemma_part_shape(v@, pos as int, p);
                        vstd::std_specs::vec::axiom_spec_len(v);
                    let d1 = dec_of(p.index as int);
                    let d2 = dec_of(p.start_byte as int);
                    let d3 = dec_of(p.end_byte as int);
                    let d4 = dec_of(p.current_byte as int);
                    let bb = json_of_bool(p.completed);
                    let o1 = pos as int + 9;
                    let o2 = o1 + d1.len();
                    let o3 = o2 + 14;
                    let o4 = o3 + d2.len();
                    let o5 = o4 + 12;
                    let o6 = o5 + d3.len();
                    let o7 = o6 + 16;
                    let o8 = o7 + d4.len();
                    let o9 = o8 + 13;
                    let o10 = o9 + bb.len();
                    assert(index64 == p.index as u64 && start_byte == p.start_byte);
                    assert(o4 <= v@.len());
                    assert(p3 as int == o4);
                    assert(dec_of(p.end_byte as int) == d3);
                    assert(dec_of(p.current_byte as int) == d4);
                    assert(v@.subrange(p3 as int, p3 + 12) == ",\"end_byte\":"@);
                    assert(v@.subrange(p3 + 12, p3 + 12 + d3.len()) == d3);
                    assert(!is_dec_digit(v@[p3 + 12 + d3.len()]));
                    assert(v@.subrange(p3 + 12 + d3.len(), p3 + 28 + d3.len()) == ",\"current_byte\":"@);
                    assert(v@.subrange(p3 + 28 + d3.len(), p3 + 28 + d3.len() + d4.len()) == d4);
                    assert(!is_dec_digit(v@[p3 + 28 + d3.len() + d4.len()]));
                        assert(false);
                    }
                }
            }
            return None;
        },
    };
    proof {
        assert forall|p: PartState| (pos + json_of_part(p).len() <= v@.len() && v@.subrange(pos as int, pos + json_of_part(p).len()) == #[trigger] json_of_part(p)) implies Some(((index64, start_byte, end_byte,
        current_byte), p7)) == Some::<((u64, u64, u64, u64), usize)>(
            ((p.index as u64, p.start_byte, p.end_byte, p.current_byte), (pos + 51 + dec_of(p.index as int).len() + dec_of(p.start_byte as int).len() + dec_of(p.end_byte as int).len() + dec_of(p.current_byte as int).len()) as usize),
        ) by {
            if pos + json_of_part(p).len() <= v@.len() && v@.subrange(pos as int, pos + json_of_part(p).len()) == json_of_part(p) {
                lemma_part_shape(v@, pos as int, p);
                vstd::std_specs::vec::axiom_spec_len(v);
                    let d1 = dec_of(p.index as int);
                    let d2 = dec_of(p.start_byte as int);
                    let d3 = dec_of(p.end_byte as int);
                    let d4 = dec_of(p.current_byte as int);
                    let bb = json_of_bool(p.completed);
                    let o1 = pos as int + 9;
                    let o2 = o1 + d1.len();
                    let o3 = o2 + 14;
                    let o4 = o3 + d2.len();
                    let o5 = o4 + 12;
                    let o6 = o5 + d3.len();
                    let o7 = o6 + 16;
                    let o8 = o7 + d4.len();
                    let o9 = o8 + 13;
                    let o10 = o9 + bb.len();
                    assert(index64 == p.index as u64 && start_byte == p.start_byte);
                    assert(o4 <= v@.len());
                    assert(p3 as int == o4);
                    assert(dec_of(p.end_byte as int) == d3);
                    assert(dec_of(p.current_byte as int) == d4);
                    assert(v@.subrange(p3 as int, p3 + 12) == ",\"end_byte\":"@);
                    assert(v@.subrange(p3 + 12, p3 + 12 + d3.len()) == d3);
                    assert(!is_dec_digit(v@[p3 + 12 + d3.len()]));
                    assert(v@.subrange(p3 + 12 + d3.len(), p3 + 28 + d3.len()) == ",\"current_byte\":"@);
                    assert(v@.subrange(p3 + 28 + d3.len(), p3 + 28 + d3.len() + d4.len()) == d4);
                    assert(!is_dec_digit(v@[p3 + 28 + d3.len() + d4.len()]));
                    assert(end_byte == p.end_byte && current_byte == p.current_byte);
                    assert(o8 <= v@.len());
                    assert(p7 as int == o8);
            }
        }
    }
    Some(((index64, start_byte, end_byte, current_byte), p7))
}

/// Reads one segment record: it succeeds on exactly the renderings of
/// segment states, handing back that state.
#[verifier::rlimit(100)]
fn take_part(v: &Vec<char>, pos: usize) -> (r: Option<(PartState, usize)>)
    requires
        pos <= v@.len(),
    ensures
        match r {
            Some((_, p)) => pos < p <= v@.len(),
            None => true,
        },
        forall|p: PartState|
            (pos + json_of_part(p).len() <= v@.len() && v@.subrange(pos as int, pos + json_of_part(p).len()) == #[trigger] json_of_part(p)) ==> r == Some((p, (pos + json_of_part(p).len()) as usize)),
{
    let ((index64, start_byte, end_byte, current_byte), p7) = match take_part_nums(v, pos) {
        Some(x) => x,
        None => {
            return None;
        },
    };
    if index64 > usize::MAX as u64 {
            proof {
                assert forall|p: PartState| !(pos + json_of_part(p).len() <= v@.len() && v@.subrange(pos as int, pos + json_of_part(p).len()) == #[trigger] json_of_part(p)) by {
                    if pos + json_of_part(p).len() <= v@.len() && v@.subrange(pos as int, pos + json_of_part(p).len()) == json_of_part(p) {
                        lemma_part_shape(v@, pos as int, p);
                vstd::std_specs::vec::axiom_spec_len(v);
                        vstd::std_specs::vec::axiom_spec_len(v);
                    let d1 = dec_of(p.index as int);
                    let d2 = dec_of(p.start_byte as int);
                    let d3 = dec_of(p.end_byte as int);
                    let d4 = dec_of(p.current_byte as int);
                    let bb = json_of_bool(p.completed);
                    let o1 = pos as int + 9;
                    let o2 = o1 + d1.len();
                    let o3 = o2 + 14;
                    let o4 = o3 + d2.len();
                    let o5 = o4 + 12;
                    let o6 = o5 + d3.len();
                    let o7 = o6 + 16;
                    let o8 = o7 + d4.len();
                    let o9 = o8 + 13;
                    let o10 = o9 + bb.len();
                    assert(index64 == p.index as u64 && start_byte == p.start_byte
                        && end_byte == p.end_byte && current_byte == p.current_byte);
                    assert(o8 <= v@.len());
                    assert(p7 as int == o8);
                        assert(false);
                    }
                }
            }
        return None;
    }
    let p8 = match expect_lit(v, p7, ",\"completed\":") {
        Some(p) => p,
        None => {
            proof {
                assert forall|p: PartState| !(pos + json_of_part(p).len() <= v@.len() && v@.subrange(pos as int, pos + json_of_part(p).len()) == #[trigger] json_of_part(p)) by {
                    if pos + json_of_part(p).len() <= v@.len() && v@.subrange(pos as int, pos + json_of_part(p).len()) == json_of_part(p) {
                        lemma_part_shape(v@, pos as int, p);
                vstd::std_specs::vec::axiom_spec_len(v);
                        vstd::std_specs::vec::axiom_spec_len(v);
                    let d1 = dec_of(p.index as int);
                    let d2 = dec_of(p.start_byte as int);
                    let d3 = dec_of(p.end_byte as int);
                    let d4 = dec_of(p.current_byte as int);
                    let bb = json_of_bool(p.completed);
                    let o1 = pos as int + 9;
                    let o2 = o1 + d1.len();
                    let o3 = o2 + 14;
                    let o4 = o3 + d2.len();
                    let o5 = o4 + 12;
                    let o6 = o5 + d3.len();
                    let o7 = o6 + 16;
                    let o8 = o7 + d4.len();
                    let o9 = o8 + 13;
                    let o10 = o9 + bb.len();
                    assert(index64 == p.index as u64 && start_byte == p.start_byte
                        && end_byte == p.end_byte && current_byte == p.current_byte);
                    assert(o8 <= v@.len());
                    assert(p7 as int == o8);
                        assert(false);
                    }
                }
            }
            return None;
        },
    };
    let (completed, p9) = match take_bool(v, p8) {
        Some(x) => x,
        None => {
            proof {
                assert forall|p: PartState| !(pos + json_of_part(p).len() <= v@.len() && v@.subrange(pos as int, pos + json_of_part(p).len()) == #[trigger] json_of_part(p)) by {
                    if pos + json_of_part(p).len() <= v@.len() && v@.subrange(pos as int, pos + json_of_part(p).len()) == json_of_part(p) {
                        lemma_part_shape(v@, pos as int, p);
                vstd::std_specs::vec::axiom_spec_len(v);
                        vstd::std_specs::vec::axiom_spec_len(v);
                    let d1 = dec_of(p.index as int);
                    let d2 = dec_of(p.start_byte as int);
                    let d3 = dec_of(p.end_byte as int);
                    let d4 = dec_of(p.current_byte as int);
                    let bb = json_of_bool(p.completed);
                    let o1 = pos as int + 9;
                    let o2 = o1 + d1.len();
                    let o3 = o2 + 14;
                    let o4 = o3 + d2.len();
                    let o5 = o4 + 12;
                    let o6 = o5 + d3.len();
                    let o7 = o6 + 16;
                    let o8 = o7 + d4.len();
                    let o9 = o8 + 13;
                    let o10 = o9 + bb.len();
                    assert(index64 == p.index as u64 && start_byte == p.start_byte
                        && end_byte == p.end_byte && current_byte == p.current_byte);
                    assert(o8 <= v@.len());
                    assert(p7 as int == o8);
                    assert(p8 as int == o9);
                        assert(false);
                    }
                }
            }
            return None;
        },
    };
    let p10 = match expect_lit(v, p9, "}") {
        Some(p) => p,
        None => {
            proof {
                assert forall|p: PartState| !(pos + json_of_part(p).len() <= v@.len() && v@.subrange(pos as int, pos + json_of_part(p).len()) == #[trigger] json_of_part(p)) by {
                    if pos + json_of_part(p).len() <= v@.len() && v@.subrange(pos as int, pos + json_of_part(p).len()) == json_of_part(p) {
                        lemma_part_shape(v@, pos as int, p);
                vstd::std_specs::vec::axiom_spec_len(v);
                        vstd::std_specs::vec::axiom_spec_len(v);
                    let d1 = dec_of(p.index as int);
                    let d2 = dec_of(p.start_byte as int);
                    let d3 = dec_of(p.end_byte as int);
                    let d4 = dec_of(p.current_byte as int);
                    let bb = json_of_bool(p.completed);
                    let o1 = pos as int + 9;
                    let o2 = o1 + d1.len();
                    let o3 = o2 + 14;
                    let o4 = o3 + d2.len();
                    let o5 = o4 + 12;
                    let o6 = o5 + d3.len();
                    let o7 = o6 + 16;
                    let o8 = o7 + d4.len();
                    let o9 = o8 + 13;
                    let o10 = o9 + bb.len();
                    assert(index64 == p.index as u64 && start_byte == p.start_byte
                        && end_byte == p.end_byte && current_byte == p.current_byte);
                    assert(o8 <= v@.len());
                    assert(p7 as int == o8);
                    assert(p8 as int == o9);
                    assert(v@.subrange(p8 as int, p8 + bb.len()) == bb);
                    assert(completed == p.completed && p9 as int == o10);
                        assert(false);
                    }
                }
            }
            return None;
        },
    };
    let built = PartState {
        index: index64 as usize,
        start_byte,
        end_byte,
        current_byte,
        completed,
    };
    proof {
        assert forall|p: PartState| (pos + json_of_part(p).len() <= v@.len() && v@.subrange(pos as int, pos + json_of_part(p).len()) == #[trigger] json_of_part(p)) implies Some((built, p10)) == Some::<
            (PartState, usize),
        >((p, (pos + json_of_part(p).len()) as usize)) by {
            if pos + json_of_part(p).len() <= v@.len() && v@.subrange(pos as int, pos + json_of_part(p).len()) == json_of_part(p) {
                lemma_part_shape(v@, pos as int, p);
                vstd::std_specs::vec::axiom_spec_len(v);
                    let d1 = dec_of(p.index as int);
                    let d2 = dec_of(p.start_byte as int);
                    let d3 = dec_of(p.end_byte as int);
                    let d4 = dec_of(p.current_byte as int);
                    let bb = json_of_bool(p.completed);
                    let o1 = pos as int + 9;
                    let o2 = o1 + d1.len();
                    let o3 = o2 + 14;
                    let o4 = o3 + d2.len();
                    let o5 = o4 + 12;
                    let o6 = o5 + d3.len();
                    let o7 = o6 + 16;
                    let o8 = o7 + d4.len();
                    let o9 = o8 + 13;
                    let o10 = o9 + bb.len();
                    assert(index64 == p.index as u64 && start_byte == p.start_byte
                        && end_byte == p.end_byte && current_byte == p.current_byte);
                    assert(o8 <= v@.len());
                    assert(p7 as int == o8);
                    assert(p8 as int == o9);
                    assert(v@.subrange(p8 as int, p8 + bb.len()) == bb);
                    assert(completed == p.completed && p9 as int == o10);
                    assert(p10 as int == o10 + 1);
                assert((p.index as u64) as usize == p.index);
                assert(built == p);
            }
        }
    }
    Some((built, p10))
}

/// The segment-list rendering grows front to back: one segment alone, then a
/// comma and the next segment's rendering.
proof fn lemma_parts_front(ps: Seq<PartState>, k: int)
    requires
        0 <= k < ps.len(),
    ensures
        k == 0 ==> json_of_parts(ps.take(1)) == json_of_part(ps[0]),
        k >= 1 ==> json_of_parts(ps.take(k + 1)) == json_of_parts(ps.take(k)) + ","@
            + json_of_part(ps[k]),
{
    if k == 0 {
        assert(ps.take(1).len() == 1);
        assert(ps.take(1)[0] == ps[0]);
    } else {
        assert(ps.take(k + 1).drop_last() =~= ps.take(k));
        assert(ps.take(k + 1).last() == ps[k]);
    }
}

/// The rendering of a front piece of the list begins the whole rendering.
proof fn lemma_parts_prefix(ps: Seq<PartState>, k: int)
    requires
        0 <= k <= ps.len(),
    ensures
        json_of_parts(ps.take(k)).len() <= json_of_parts(ps).len(),
        json_of_parts(ps.take(k)) == json_of_parts(ps).subrange(
            0,
            json_of_parts(ps.take(k)).len() as int,
        ),
    decreases ps.len() - k,
{
    if k == ps.len() {
        assert(ps.take(k) =~= ps);
        assert(json_of_parts(ps).subrange(0, json_of_parts(ps).len() as int) =~= json_of_parts(
            ps,
        ));
    } else {
        lemma_parts_prefix(ps, k + 1);
        lemma_parts_front(ps, k);
        let a = json_of_parts(ps.take(k));
        let b = json_of_parts(ps.take(k + 1));
        if k == 0 {
            assert(ps.take(0).len() == 0);
            assert(a =~= b.subrange(0, a.len() as int));
        } else {
            assert(a =~= b.subrange(0, a.len() as int));
        }
        assert(a =~= json_of_parts(ps).subrange(0, a.len() as int));
    }
}

/// Reads a comma-joined, non-empty run of segment records: on exactly the
/// rendering of a non-empty segment list, bounded on the right by anything
/// but a comma, it hands back that list.
#[verifier::rlimit(100)]
fn take_parts(v: &Vec<char>, start: usize) -> (r: Option<(Vec<PartState>, usize)>)
    requires
        start <= v@.len(),
    ensures
        match r {
            Some((_, p)) => start < p <= v@.len(),
            None => true,
        },
        forall|ps: Seq<PartState>|
            #![trigger json_of_parts(ps)]
            (ps.len() >= 1 && start + json_of_parts(ps).len() <= v@.len() && v@.subrange(
                start as int,
                start + json_of_parts(ps).len(),
            ) == json_of_parts(ps) && (start + json_of_parts(ps).len() == v@.len() || v@[start
                + json_of_parts(ps).len()] != ',')) ==> (r is Some && ({
                let (out, p) = r->Some_0;
                out@ == ps && p as int == start + json_of_parts(ps).len()
            })),
{
    let (first, p5) = match take_part(v, start) {
        Some(x) => x,
        None => {
            proof {
                assert forall|ps: Seq<PartState>| #![trigger json_of_parts(ps)] !(ps.len() >= 1 && start + json_of_parts(ps).len() <= v@.len() && v@.subrange(
                start as int,
                start + json_of_parts(ps).len(),
            ) == json_of_parts(ps) && (start + json_of_parts(ps).len() == v@.len() || v@[start
                + json_of_parts(ps).len()] != ',')) by {
                    if (ps.len() >= 1 && start + json_of_parts(ps).len() <= v@.len() && v@.subrange(
                start as int,
                start + json_of_parts(ps).len(),
            ) == json_of_parts(ps) && (start + json_of_parts(ps).len() == v@.len() || v@[start
                + json_of_parts(ps).len()] != ',')) {
                        reveal_strlit(",");
                        vstd::std_specs::vec::axiom_spec_len(v);
                        reveal_strlit(",");
            vstd::std_specs::vec::axiom_spec_len(v);
            lemma_parts_front(ps, 0);
                        lemma_parts_prefix(ps, 1);
                        let jm = json_of_parts(ps.take(1));
                        let whole = json_of_parts(ps);
                        let rest = whole.subrange(jm.len() as int, whole.len() as int);
                        assert(whole =~= jm + rest);
                        lemma_concat_slice(v@, start as int, jm, rest);
                        assert(v@.subrange(start as int, start + json_of_part(ps[0]).len())
                            == json_of_part(ps[0]));
                        assert(false);
                    }
                }
            }
            return None;
        },
    };
    let mut parts: Vec<PartState> = Vec::new();
    parts.push(first);
    let mut pos = p5;
    proof {
        assert forall|ps: Seq<PartState>| #![trigger json_of_parts(ps)] (ps.len() >= 1 && start + json_of_parts(ps).len() <= v@.len() && v@.subrange(
                start as int,
                start + json_of_parts(ps).len(),
            ) == json_of_parts(ps) && (start + json_of_parts(ps).len() == v@.len() || v@[start
                + json_of_parts(ps).len()] != ',')) implies (
        parts@.len() <= ps.len() && parts@ == ps.take(parts@.len() as int) && pos as int == start
            + json_of_parts(ps.take(parts@.len() as int)).len()) by {
            reveal_strlit(",");
            vstd::std_specs::vec::axiom_spec_len(v);
            lemma_parts_front(ps, 0);
                        lemma_parts_prefix(ps, 1);
                        let jm = json_of_parts(ps.take(1));
                        let whole = json_of_parts(ps);
                        let rest = whole.subrange(jm.len() as int, whole.len() as int);
                        assert(whole =~= jm + rest);
                        lemma_concat_slice(v@, start as int, jm, rest);
            assert(v@.subrange(start as int, start + json_of_part(ps[0]).len())
                == json_of_part(ps[0]));
            assert(first == ps[0] && p5 as int == start + json_of_part(ps[0]).len());
            assert(parts@ =~= ps.take(1));
        }
    }
    while pos < v.len() && v[pos] == ','
        invariant
            start < pos <= v@.len(),
            parts@.len() >= 1,
            forall|ps: Seq<PartState>|
                #![trigger json_of_parts(ps)]
                (ps.len() >= 1 && start + json_of_parts(ps).len() <= v@.len() && v@.subrange(
                start as int,
                start + json_of_parts(ps).len(),
            ) == json_of_parts(ps) && (start + json_of_parts(ps).len() == v@.len() || v@[start
                + json_of_parts(ps).len()] != ',')) ==> (parts@.len() <= ps.len() && parts@ == ps.take(parts@.len() as int)
                    && pos as int == start + json_of_parts(ps.take(parts@.len() as int)).len()),
        decreases v@.len() - pos,
    {
        let ghost prevk = parts@.len() as int;
        let ghost prevpos = pos as int;
        let (next, pn) = match take_part(v, pos + 1) {
            Some(x) => x,
            None => {
                proof {
                    assert forall|ps: Seq<PartState>| #![trigger json_of_parts(ps)] !(ps.len() >= 1 && start + json_of_parts(ps).len() <= v@.len() && v@.subrange(
                start as int,
                start + json_of_parts(ps).len(),
            ) == json_of_parts(ps) && (start + json_of_parts(ps).len() == v@.len() || v@[start
                + json_of_parts(ps).len()] != ',')) by {
                        if (ps.len() >= 1 && start + json_of_parts(ps).len() <= v@.len() && v@.subrange(
                start as int,
                start + json_of_parts(ps).len(),
            ) == json_of_parts(ps) && (start + json_of_parts(ps).len() == v@.len() || v@[start
                + json_of_parts(ps).len()] != ',')) {
                            reveal_strlit(",");
                            vstd::std_specs::vec::axiom_spec_len(v);
                            reveal_strlit(",");
                vstd::std_specs::vec::axiom_spec_len(v);
                assert(prevk < ps.len()) by {
                                if prevk == ps.len() {
                                    assert(ps.take(prevk) =~= ps);
                                }
                            }
                            lemma_parts_front(ps, prevk);
                        lemma_parts_prefix(ps, prevk + 1);
                        let jm = json_of_parts(ps.take(prevk + 1));
                        let whole = json_of_parts(ps);
                        let rest = whole.subrange(jm.len() as int, whole.len() as int);
                        assert(whole =~= jm + rest);
                        lemma_concat_slice(v@, start as int, jm, rest);
                            assert(jm == json_of_parts(ps.take(prevk)) + ","@ + json_of_part(
                                ps[prevk],
                            ));
                            let inner = json_of_parts(ps.take(prevk)) + ","@ + json_of_part(
                                ps[prevk],
                            );
                            assert(v@.subrange(start as int, start + inner.len()) == inner);
                            lemma_concat_slice(
                                v@,
                                start as int,
                                json_of_parts(ps.take(prevk)) + ","@,
                                json_of_part(ps[prevk]),
                            );
                            assert(v@.subrange(
                                prevpos + 1,
                                prevpos + 1 + json_of_part(ps[prevk]).len(),
                            ) == json_of_part(ps[prevk]));
                            assert(false);
                        }
                    }
                }
                return None;
            },
        };
        parts.push(next);
        pos = pn;
        proof {
            assert forall|ps: Seq<PartState>| #![trigger json_of_parts(ps)] (ps.len() >= 1 && start + json_of_parts(ps).len() <= v@.len() && v@.subrange(
                start as int,
                start + json_of_parts(ps).len(),
            ) == json_of_parts(ps) && (start + json_of_parts(ps).len() == v@.len() || v@[start
                + json_of_parts(ps).len()] != ',')) implies (
            parts@.len() <= ps.len() && parts@ == ps.take(parts@.len() as int) && pos as int
                == start + json_of_parts(ps.take(parts@.len() as int)).len()) by {
                reveal_strlit(",");
                vstd::std_specs::vec::axiom_spec_len(v);
                assert(prevk < ps.len()) by {
                    if prevk == ps.len() {
                        assert(ps.take(prevk) =~= ps);
                    }
                }
                lemma_parts_front(ps, prevk);
                        lemma_parts_prefix(ps, prevk + 1);
                        let jm = json_of_parts(ps.take(prevk + 1));
                        let whole = json_of_parts(ps);
                        let rest = whole.subrange(jm.len() as int, whole.len() as int);
                        assert(whole =~= jm + rest);
                        lemma_concat_slice(v@, start as int, jm, rest);
                let inner = json_of_parts(ps.take(prevk)) + ","@ + json_of_part(ps[prevk]);
                assert(v@.subrange(start as int, start + inner.len()) == inner);
                lemma_concat_slice(
                    v@,
                    start as int,
                    json_of_parts(ps.take(prevk)) + ","@,
                    json_of_part(ps[prevk]),
                );
                assert(v@.subrange(prevpos + 1, prevpos + 1 + json_of_part(ps[prevk]).len())
                    == json_of_part(ps[prevk]));
                assert(next == ps[prevk] && pn as int == prevpos + 1 + json_of_part(
                    ps[prevk],
                ).len());
                assert(parts@ =~= ps.take(prevk + 1));
            }
        }
    }
    proof {
        assert forall|ps: Seq<PartState>| #![trigger json_of_parts(ps)] (ps.len() >= 1 && start + json_of_parts(ps).len() <= v@.len() && v@.subrange(
                start as int,
                start + json_of_parts(ps).len(),
            ) == json_of_parts(ps) && (start + json_of_parts(ps).len() == v@.len() || v@[start
                + json_of_parts(ps).len()] != ',')) implies (
        parts@ == ps && pos as int == start + json_of_parts(ps).len()) by {
            reveal_strlit(",");
            vstd::std_specs::vec::axiom_spec_len(v);
            let k = parts@.len() as int;
            if k < ps.len() {
                lemma_parts_front(ps, k);
                        lemma_parts_prefix(ps, k + 1);
                        let jm = json_of_parts(ps.take(k + 1));
                        let whole = json_of_parts(ps);
                        let rest = whole.subrange(jm.len() as int, whole.len() as int);
                        assert(whole =~= jm + rest);
                        lemma_concat_slice(v@, start as int, jm, rest);
                assert(v@.subrange(start as int, start + jm.len()) == jm);
                assert(jm == json_of_parts(ps.take(k)) + ","@ + json_of_part(ps[k]));
                assert(jm[json_of_parts(ps.take(k)).len() as int] == ',');
                assert(v@[pos as int] == ',');
                assert((pos as int) < start + json_of_parts(ps).len());
                assert(false);
            }
            assert(ps.take(k) =~= ps);
        }
    }
    Some((parts, pos))
}

/// Reads the record head — the URL and the total size — leaving the cursor
/// at the first character of the segment list. The head of a rendered record
/// is always read back.
#[verifier::rlimit(100)]
fn take_head(v: &Vec<char>) -> (r: Option<(Vec<char>, u64, usize)>)
    ensures
        match r {
            Some((_, _, p)) => p <= v@.len(),
            None => true,
        },
        forall|st: DownloadState|
            (json_safe(st.url@) && v@ == #[trigger] json_of_state(st))
                ==> (r is Some && ({
                let (u, t, p) = r->Some_0;
                &&& u@ == st.url@
                &&& t == st.total_size
                &&& p as int == 33 + st.url@.len() + dec_of(st.total_size as int).len()
            })),
{
    let p0 = match expect_lit(v, 0, "{\"url\":\"") {
        Some(p) => p,
        None => {
            proof {
                assert forall|st: DownloadState|
                    !(json_safe(st.url@) && v@ == #[trigger] json_of_state(st)) by {
                    if json_safe(st.url@) && v@ == json_of_state(st) {
                        lemma_record_shape(v@, st);
                        reveal_strlit("{\"url\":\"");
                    }
                }
            }
            return None;
        },
    };
    let (url_chars, p1) = match take_string(v, p0) {
        Some(x) => x,
        None => {
            proof {
                assert forall|st: DownloadState|
                    !(json_safe(st.url@) && v@ == #[trigger] json_of_state(st)) by {
                    if json_safe(st.url@) && v@ == json_of_state(st) {
                        lemma_record_shape(v@, st);
                        reveal_strlit("{\"url\":\"");
                    }
                }
            }
            return None;
        },
    };
    let p2 = match expect_lit(v, p1, ",\"total_size\":") {
        Some(p) => p,
        None => {
            proof {
                assert forall|st: DownloadState|
                    !(json_safe(st.url@) && v@ == #[trigger] json_of_state(st)) by {
                    if json_safe(st.url@) && v@ == json_of_state(st) {
                        lemma_record_shape(v@, st);
                        reveal_strlit("{\"url\":\"");
                    }
                }
            }
            return None;
        },
    };
    let (total_size, p3) = match crate::text::parse_dec_u64(v, p2) {
        Some(x) => x,
        None => {
            proof {
                assert forall|st: DownloadState|
                    !(json_safe(st.url@) && v@ == #[trigger] json_of_state(st)) by {
                    if json_safe(st.url@) && v@ == json_of_state(st) {
                        lemma_record_shape(v@, st);
                        reveal_strlit("{\"url\":\"");
                    }
                }
            }
            return None;
        },
    };
    let p4 = match expect_lit(v, p3, ",\"parts\":[") {
        Some(p) => p,
        None => {
            proof {
                assert forall|st: DownloadState|
                    !(json_safe(st.url@) && v@ == #[trigger] json_of_state(st)) by {
                    if json_safe(st.url@) && v@ == json_of_state(st) {
                        lemma_record_shape(v@, st);
                        reveal_strlit("{\"url\":\"");
                    }
                }
            }
            return None;
        },
    };
    proof {
        assert forall|st: DownloadState|
            (json_safe(st.url@) && v@ == #[trigger] json_of_state(st))
                implies (url_chars@ == st.url@ && total_size == st.total_size && p4 as int == 33
                + st.url@.len() + dec_of(st.total_size as int).len()) by {
            lemma_record_shape(v@, st);
            reveal_strlit("{\"url\":\"");
        }
    }
    Some((url_chars, total_size, p4))
}

/// The candidate reading of a record, before the canonical check: the
/// rendering of any record with a quote- and backslash-free URL is read back
/// as that record.
#[verifier::rlimit(100)]
fn take_state(v: &Vec<char>) -> (r: Option<DownloadState>)
    ensures
        forall|st: DownloadState|
            (json_safe(st.url@) && v@ == #[trigger] json_of_state(st))
                ==> (r is Some && r->Some_0.url@ == st.url@ && r->Some_0.total_size
                == st.total_size && r->Some_0.parts@ == st.parts@),
{
    let (url_chars, total_size, p4) = match take_head(v) {
        Some(x) => x,
        None => {
            return None;
        },
    };
    if p4 < v.len() && v[p4] == ']' {
        let pend = match expect_lit(v, p4, "]}") {
            Some(p) => p,
            None => {
                proof {
                    assert forall|st: DownloadState|
                        !(json_safe(st.url@) && v@ == #[trigger] json_of_state(st)) by {
                        if json_safe(st.url@) && v@ == json_of_state(st) {
                            lemma_record_shape(v@, st);
                        }
                    }
                }
                return None;
            },
        };
        if pend != v.len() {
            proof {
                assert forall|st: DownloadState|
                    !(json_safe(st.url@) && v@ == #[trigger] json_of_state(st)) by {
                    if json_safe(st.url@) && v@ == json_of_state(st) {
                        lemma_record_shape(v@, st);
                    }
                }
            }
            return None;
        }
        let parts: Vec<PartState> = Vec::new();
        let built = DownloadState { url: chars_to_string(&url_chars), total_size, parts };
        proof {
            assert forall|st: DownloadState|
                (json_safe(st.url@) && v@ == #[trigger] json_of_state(
                    st,
                )) implies (built.url@ == st.url@ && built.total_size == st.total_size
                && built.parts@ == st.parts@) by {
                lemma_record_shape(v@, st);
                assert(built.parts@ =~= st.parts@);
            }
        }
        return Some(built);
    }
    let (parts, pos) = match take_parts(v, p4) {
        Some(x) => x,
        None => {
            proof {
                assert forall|st: DownloadState|
                    !(json_safe(st.url@) && v@ == #[trigger] json_of_state(st)) by {
                    if json_safe(st.url@) && v@ == json_of_state(st) {
                        lemma_record_shape(v@, st);
                        vstd::std_specs::vec::axiom_spec_len(v);
                    }
                }
            }
            return None;
        },
    };
    let pend = match expect_lit(v, pos, "]}") {
        Some(p) => p,
        None => {
            proof {
                assert forall|st: DownloadState|
                    !(json_safe(st.url@) && v@ == #[trigger] json_of_state(st)) by {
                    if json_safe(st.url@) && v@ == json_of_state(st) {
                        lemma_record_shape(v@, st);
                        vstd::std_specs::vec::axiom_spec_len(v);
                    }
                }
            }
            return None;
        },
    };
    if pend != v.len() {
        proof {
            assert forall|st: DownloadState|
                !(json_safe(st.url@) && v@ == #[trigger] json_of_state(st)) by {
                if json_safe(st.url@) && v@ == json_of_state(st) {
                    lemma_record_shape(v@, st);
                    vstd::std_specs::vec::axiom_spec_len(v);
                }
            }
        }
        return None;
    }
    let built = DownloadState { url: chars_to_string(&url_chars), total_size, parts };
    proof {
        assert forall|st: DownloadState|
            (json_safe(st.url@) && v@ == #[trigger] json_of_state(st)) implies (built.url@
                == st.url@ && built.total_size == st.total_size && built.parts@
                == st.parts@) by {
            if json_safe(st.url@) && v@ == json_of_state(st) {
                lemma_record_shape(v@, st);
                vstd::std_specs::vec::axiom_spec_len(v);
            }
        }
    }
    Some(built)
}

/// Reads a record back, both ways exactly: a `Some` result is a well-formed
/// state, and exactly the one whose canonical rendering is `text`; and the
/// rendering of any well-formed record whose URL is free of quotes and
/// backslashes — as URL syntax already guarantees — reads back as that
/// record. Any other text — truncated, reordered, escaped, ill-formed, or
/// otherwise off — is corrupt and yields `None`, upon which the engine
/// discards the record and re-initializes.
pub fn parse_state_json(text: &str) -> (r: Option<DownloadState>)
    ensures
        match r {
            Some(st) => text@ == json_of_state(st) && crate::state::wf_state(st),
            None => true,
        },
        forall|st: DownloadState|
            (crate::state::wf_state(st) && json_safe(st.url@) && text@
                == #[trigger] json_of_state(st)) ==> (r is Some && r->Some_0.url@ == st.url@
                && r->Some_0.total_size == st.total_size && r->Some_0.parts@ == st.parts@),
{
    let v = str_to_chars(text);
    let cand = match take_state(&v) {
        Some(st) => st,
        None => {
            return None;
        },
    };
    if !crate::state::check_wf_state(&cand) {
        proof {
            assert forall|st: DownloadState|
                !(crate::state::wf_state(st) && json_safe(st.url@)
                    && text@ == #[trigger] json_of_state(st)) by {
                if crate::state::wf_state(st) && json_safe(st.url@)
                    && text@ == json_of_state(st) {
                    assert(cand.parts@ == st.parts@);
                    assert(crate::state::wf_state(cand));
                }
            }
        }
        return None;
    }
    let rendered = serialize_state(&cand);
    if str_eq(rendered.as_str(), text) {
        Some(cand)
    } else {
        proof {
            assert forall|st: DownloadState|
                !(crate::state::wf_state(st) && json_safe(st.url@)
                    && text@ == #[trigger] json_of_state(st)) by {
                if crate::state::wf_state(st) && json_safe(st.url@)
                    && text@ == json_of_state(st) {
                    assert(json_of_parts(cand.parts@) == json_of_parts(st.parts@));
                    assert(json_of_state(cand) =~= json_of_state(st));
                }
            }
        }
        None
    }
}

} // verus!
