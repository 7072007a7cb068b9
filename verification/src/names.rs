//! Filenames: the target name derived from a URL's path, the staging names
//! beside it, and collision-free alternatives.

use vstd::prelude::*;
use vstd::string::StringExecFns;
use crate::errors::DlError;
use crate::text::{
    find_from, lemma_find_from, find_char_from, rfind, lemma_rfind, rfind_char, rskip_from,
    lemma_rskip_from, rskip_char, str_to_chars, chars_to_string, sub_chars, chars_eq,
};

verus! {

/// Relies on uuid's new_v4 and its hyphenated rendering: a fresh token of 36
/// characters. Nothing else is assumed of a random value.
#[verifier::external_body]
fn fresh_token() -> (r: String)
    ensures
        r@.len() == 36,
{
    uuid::Uuid::new_v4().to_string()
}

/// `://` starts at position `i`.
pub open spec fn scheme_at(s: Seq<char>, i: int) -> bool {
    s[i] == ':' && s[i + 1] == '/' && s[i + 2] == '/'
}

/// The first position where `://` starts, or the length if there is none.
pub open spec fn find_scheme(s: Seq<char>, i: int) -> int
    decreases s.len() - i,
{
    if i < 0 || i + 3 > s.len() {
        s.len() as int
    } else if scheme_at(s, i) {
        i
    } else {
        find_scheme(s, i + 1)
    }
}

/// A URL the engine accepts: it carries a scheme-authority prefix.
pub open spec fn spec_url_has_scheme(s: Seq<char>) -> bool {
    find_scheme(s, 0) < s.len()
}

/// The final non-empty segment of the URL's path, with query and fragment
/// stripped and trailing slashes skipped; `None` when no slash starts a path
/// before the query or fragment, or the path holds nothing but slashes. A
/// slash inside the query or fragment is no path.
pub open spec fn spec_url_filename(s: Seq<char>) -> Option<Seq<char>> {
    let se = find_scheme(s, 0);
    let q = find_from(s, se + 3, '?');
    let h = find_from(s, se + 3, '#');
    let pe = if q < h {
        q
    } else {
        h
    };
    let ps = find_from(s, se + 3, '/');
    if ps >= pe {
        None
    } else {
        let t = rskip_from(s, ps, pe, '/');
        if t == ps {
            None
        } else {
            Some(s.subrange(rfind(s, 0, t, '/') + 1, t))
        }
    }
}

/// A fallback target name for a URL without a usable path segment: the fixed
/// prefix and a 36-character fresh token.
fn fallback_name() -> (r: String)
    ensures
        r@.len() == 45,
        r@.subrange(0, 9) == "download_"@,
{
    proof {
        reveal_strlit("download_");
    }
    let token = fresh_token();
    let mut out = str_to_chars("download_");
    let tv = str_to_chars(token.as_str());
    let mut i: usize = 0;
    while i < tv.len()
        invariant
            i <= tv@.len(),
            out@ == "download_"@ + tv@.subrange(0, i as int),
        decreases tv@.len() - i,
    {
        out.push(tv[i]);
        i = i + 1;
        proof {
            assert(out@ =~= "download_"@ + tv@.subrange(0, i as int));
        }
    }
    proof {
        reveal_strlit("download_");
        assert(out@.subrange(0, 9) =~= "download_"@);
    }
    chars_to_string(&out)
}

/// Derives the target filename from the URL: the final non-empty segment of
/// its path, or a fresh `download_` name when the path has none. A string
/// without a scheme-authority prefix is rejected.
pub fn get_filename_from_url(url: &str) -> (r: Result<String, DlError>)
    ensures
        match r {
            Err(e) => e == DlError::InvalidUrl && !spec_url_has_scheme(url@),
            Ok(name) => spec_url_has_scheme(url@) && match spec_url_filename(url@) {
                Some(seg) => name@ == seg,
                None => name@.len() == 45 && name@.subrange(0, 9) == "download_"@,
            },
        },
{
    let v = str_to_chars(url);
    let n = v.len();
    let mut i: usize = 0;
    while n - i >= 3 && !(v[i] == ':' && v[i + 1] == '/' && v[i + 2] == '/')
        invariant
            n == v@.len(),
            i <= n,
            find_scheme(v@, 0) == find_scheme(v@, i as int),
        decreases n - i,
    {
        i = i + 1;
    }
    if n - i < 3 {
        proof {
            assert(find_scheme(v@, i as int) == n);
        }
        return Err(DlError::InvalidUrl);
    }
    let q = find_char_from(&v, i + 3, '?');
    let h = find_char_from(&v, i + 3, '#');
    let pe = if q < h {
        q
    } else {
        h
    };
    let ps = find_char_from(&v, i + 3, '/');
    if ps >= pe {
        return Ok(fallback_name());
    }
    proof {
        lemma_find_from(v@, (i + 3) as int, '?');
        lemma_find_from(v@, (i + 3) as int, '#');
        lemma_find_from(v@, (i + 3) as int, '/');
    }
    let t = rskip_char(&v, ps, pe, '/');
    if t == ps {
        return Ok(fallback_name());
    }
    proof {
        lemma_rskip_from(v@, ps as int, pe as int, '/');
    }
    match rfind_char(&v, t, '/') {
        None => {
            // The path begins with the slash at `ps` and `t` lies past it, so
            // a slash below `t` always exists and this arm cannot be reached.
            proof {
                lemma_rfind(v@, 0, t as int, '/');
                assert(v@[ps as int] == '/');
                assert(false);
            }
            Ok(fallback_name())
        },
        Some(ls) => {
            proof {
                lemma_rfind(v@, 0, t as int, '/');
                assert(v@[ps as int] == '/');
                assert(ls >= ps);
            }
            Ok(chars_to_string(&sub_chars(&v, ls + 1, t)))
        },
    }
}

/// The staging slab's name beside the target: the target name with `.part`.
pub fn slab_name(name: &str) -> (r: String)
    ensures
        r@ == name@ + ".part"@,
{
    let mut r = name.to_owned();
    r.append(".part");
    r
}

/// The resume record's name beside the target: the target name with
/// `.part.json`.
pub fn state_name(name: &str) -> (r: String)
    ensures
        r@ == name@ + ".part.json"@,
{
    let mut r = name.to_owned();
    r.append(".part.json");
    r
}

/// `s` ends with `t`.
pub open spec fn spec_ends_with(s: Seq<char>, t: Seq<char>) -> bool {
    s.len() >= t.len() && s.subrange(s.len() - t.len(), s.len() as int) == t
}

pub fn str_ends_with(s: &str, t: &str) -> (r: bool)
    ensures
        r == spec_ends_with(s@, t@),
{
    let sv = str_to_chars(s);
    let tv = str_to_chars(t);
    if sv.len() < tv.len() {
        return false;
    }
    let slen = sv.len();
    let tlen = tv.len();
    let off = slen - tlen;
    let mut i: usize = 0;
    while i < tlen
        invariant
            sv@ == s@,
            tv@ == t@,
            slen == sv@.len(),
            tlen == tv@.len(),
            tlen <= slen,
            off == slen - tlen,
            i <= tlen,
            forall|k: int| 0 <= k < i ==> sv@[off + k] == tv@[k],
        decreases tlen - i,
    {
        if sv[off + i] != tv[i] {
            proof {
                assert(s@.subrange(s@.len() - t@.len(), s@.len() as int)[i as int] == s@[off + i]);
            }
            return false;
        }
        i = i + 1;
    }
    proof {
        assert(s@.subrange(s@.len() - t@.len(), s@.len() as int) =~= t@);
    }
    true
}

/// Some name of the list equals `x`.
pub open spec fn spec_contains_name(names: Seq<Seq<char>>, x: Seq<char>) -> bool {
    exists|i: int| 0 <= i < names.len() && names[i] == x
}

fn contains_name(existing: &Vec<String>, cand: &Vec<char>) -> (r: bool)
    ensures
        r == spec_contains_name(existing.deep_view(), cand@),
{
    let mut i: usize = 0;
    while i < existing.len()
        invariant
            i <= existing@.len(),
            existing.deep_view().len() == existing@.len(),
            forall|k: int| 0 <= k < i ==> existing.deep_view()[k] != cand@,
        decreases existing@.len() - i,
    {
        proof {
            assert(existing.deep_view()[i as int] =~= existing@[i as int]@);
        }
        let ev = str_to_chars(existing[i].as_str());
        if chars_eq(&ev, cand) {
            return true;
        }
        i = i + 1;
    }
    false
}

/// A name in the output directory that collides with nothing there: the
/// filename itself when it is free, else the filename with a counter spliced
/// in before its extension, else one padded until it is longer than every
/// existing name.
/// The alternative name tried for counter `k`: the counter spliced in before
/// the extension, or appended when there is none (a lone leading dot does not
/// count as one).
pub open spec fn spec_candidate(name: Seq<char>, k: int) -> Seq<char> {
    let d = rfind(name, 0, name.len() as int, '.');
    if d <= 0 {
        name + seq!['_'] + crate::text::dec_of(k)
    } else {
        name.subrange(0, d) + seq!['_'] + crate::text::dec_of(k) + name.subrange(
            d,
            name.len() as int,
        )
    }
}

/// Distinct counters give distinct candidate names.
proof fn lemma_candidate_injective(name: Seq<char>, k1: int, k2: int)
    requires
        k1 >= 0,
        k2 >= 0,
        spec_candidate(name, k1) == spec_candidate(name, k2),
    ensures
        k1 == k2,
{
    lemma_rfind(name, 0, name.len() as int, '.');
    let d = rfind(name, 0, name.len() as int, '.');
    let d1 = crate::text::dec_of(k1);
    let d2 = crate::text::dec_of(k2);
    if d <= 0 {
        assert(spec_candidate(name, k1) == name + seq!['_'] + d1);
        assert(spec_candidate(name, k2) == name + seq!['_'] + d2);
        assert(d1.len() == d2.len());
        assert(d1 =~= spec_candidate(name, k1).subrange(
            name.len() as int + 1,
            spec_candidate(name, k1).len() as int,
        ));
        assert(d2 =~= spec_candidate(name, k2).subrange(
            name.len() as int + 1,
            spec_candidate(name, k2).len() as int,
        ));
    } else {
        assert(spec_candidate(name, k1) == name.subrange(0, d) + seq!['_'] + d1 + name.subrange(
            d,
            name.len() as int,
        ));
        assert(spec_candidate(name, k2) == name.subrange(0, d) + seq!['_'] + d2 + name.subrange(
            d,
            name.len() as int,
        ));
        assert(d1.len() == d2.len());
        assert(d1 =~= spec_candidate(name, k1).subrange(d + 1, d + 1 + d1.len()));
        assert(d2 =~= spec_candidate(name, k2).subrange(d + 1, d + 1 + d2.len()));
    }
    crate::text::lemma_dec_injective(k1, k2);
}

/// A list of `n` names cannot hold `n + 1` distinct candidates: some counter
/// in `1..=n+1` is always free.
proof fn lemma_candidates_pigeonhole(names: Seq<Seq<char>>, name: Seq<char>, m: int)
    requires
        m >= 0,
        forall|k: int|
            1 <= k <= m ==> spec_contains_name(names, #[trigger] spec_candidate(name, k)),
    ensures
        m <= names.len(),
    decreases m,
{
    if m > 0 {
        assert(spec_contains_name(names, spec_candidate(name, m)));
        let i = choose|i: int| 0 <= i < names.len() && names[i] == spec_candidate(name, m);
        let names2 = names.remove(i);
        names.remove_ensures(i);
        assert forall|k: int| 1 <= k <= m - 1 implies spec_contains_name(
            names2,
            #[trigger] spec_candidate(name, k),
        ) by {
            assert(spec_contains_name(names, spec_candidate(name, k)));
            let j = choose|j: int| 0 <= j < names.len() && names[j] == spec_candidate(name, k);
            if j == i {
                lemma_candidate_injective(name, k, m);
                assert(false);
            }
            if j < i {
                assert(names2[j] == spec_candidate(name, k));
            } else {
                assert(names2[j - 1] == spec_candidate(name, k));
            }
        }
        lemma_candidates_pigeonhole(names2, name, m - 1);
    }
}

pub fn get_unique_filepath(existing: &Vec<String>, filename: &str) -> (r: String)
    requires
        existing@.len() < usize::MAX - 1,
    ensures
        !spec_contains_name(existing.deep_view(), r@),
        !spec_contains_name(existing.deep_view(), filename@) ==> r@ == filename@,
        r@ == filename@ || (exists|k: int|
            1 <= k && r@ == spec_candidate(filename@, k) && forall|k2: int|
                1 <= k2 < k ==> spec_contains_name(
                    existing.deep_view(),
                    spec_candidate(filename@, k2),
                )),
{
    let v = str_to_chars(filename);
    if !contains_name(existing, &v) {
        return filename.to_owned();
    }
    let n = v.len();
    let dot = match rfind_char(&v, n, '.') {
        Some(d) if d > 0 => d,
        _ => n,
    };
    let stem = sub_chars(&v, 0, dot);
    let ext = sub_chars(&v, dot, n);
    let bound: u64 = existing.len() as u64 + 1;
    let mut counter: u64 = 1;
    while counter <= bound
        invariant
            v@ == filename@,
            spec_contains_name(existing.deep_view(), filename@),
            existing.deep_view().len() == existing@.len(),
            bound == existing@.len() + 1,
            bound + 1 <= u64::MAX,
            1 <= counter <= bound + 1,
            forall|k2: int|
                1 <= k2 < counter ==> spec_contains_name(
                    existing.deep_view(),
                    spec_candidate(filename@, k2),
                ),
            n == v@.len(),
            dot <= n,
            (dot as int == rfind(v@, 0, n as int, '.') && dot > 0) || (dot == n && rfind(
                v@,
                0,
                n as int,
                '.',
            ) <= 0),
            stem@ == v@.subrange(0, dot as int),
            ext@ == v@.subrange(dot as int, n as int),
        decreases bound + 1 - counter,
    {
        let mut cand = sub_chars(&stem, 0, stem.len());
        cand.push('_');
        crate::text::push_dec(counter, &mut cand);
        let ghost head = cand@;
        let mut k: usize = 0;
        while k < ext.len()
            invariant
                k <= ext@.len(),
                cand@ == head + ext@.subrange(0, k as int),
            decreases ext@.len() - k,
        {
            cand.push(ext[k]);
            k = k + 1;
            proof {
                assert(cand@ =~= head + ext@.subrange(0, k as int));
            }
        }
        proof {
            assert(ext@.subrange(0, ext@.len() as int) =~= ext@);
            assert(cand@ =~= spec_candidate(filename@, counter as int));
        }
        if !contains_name(existing, &cand) {
            return chars_to_string(&cand);
        }
        counter = counter + 1;
    }
    // Unreachable: the counters 1..=n+1 name pairwise-distinct candidates, and
    // n existing names cannot hold them all.
    proof {
        lemma_candidates_pigeonhole(existing.deep_view(), filename@, bound as int);
        assert(false);
    }
    filename.to_owned()
}

} // verus!
