//! The input task list: one record per line, `url` or `url|hash`, with
//! whitespace trimmed around both sides of the separator and blank lines
//! ignored. A further separator column is an error.

use vstd::prelude::*;
use crate::errors::DlError;
use crate::gate::VerifyMode;
use crate::text::{
    spec_trim, trim_chars, str_to_chars, chars_to_string, is_space, find_from, lemma_find_from,
    find_char_from, sub_chars,
};

verus! {

/// One download request: a URL and, optionally, the expected SHA-256 digest
/// in hex.
#[derive(Clone, Debug, PartialEq, Eq)]
pub struct DownloadItem {
    pub url: String,
    pub hash: Option<String>,
}

/// The characters of an item: its URL and, if present, its hash.
pub open spec fn item_view(item: DownloadItem) -> (Seq<char>, Option<Seq<char>>) {
    (
        item.url@,
        match item.hash {
            Some(h) => Some(h@),
            None => None,
        },
    )
}

pub open spec fn items_view(items: Seq<DownloadItem>) -> Seq<(Seq<char>, Option<Seq<char>>)> {
    Seq::new(items.len(), |i: int| item_view(items[i]))
}

/// What one line of the task list means: nothing (blank), an item, or an
/// error for an unrecognized trailing column.
pub open spec fn spec_parse_line(line: Seq<char>) -> Result<
    Option<(Seq<char>, Option<Seq<char>>)>,
    DlError,
> {
    let t = spec_trim(line);
    if t.len() == 0 {
        Ok(None)
    } else {
        let p = find_from(t, 0, '|');
        if p == t.len() {
            Ok(Some((t, None)))
        } else {
            let rest = t.subrange(p + 1, t.len() as int);
            if find_from(rest, 0, '|') < rest.len() {
                Err(DlError::ExtraColumn)
            } else {
                let u = spec_trim(t.subrange(0, p));
                let h = spec_trim(rest);
                if u.len() == 0 {
                    Ok(None)
                } else if h.len() == 0 {
                    Ok(Some((u, None)))
                } else {
                    Ok(Some((u, Some(h))))
                }
            }
        }
    }
}

/// Finds the first `'|'` in `v`, or returns the length.
fn find_bar(v: &Vec<char>) -> (p: usize)
    ensures
        p == find_from(v@, 0, '|'),
        p <= v@.len(),
{
    find_char_from(v, 0, '|')
}

/// Reads one line of the task list. A blank line, or one whose URL field is
/// empty, yields no item; more than one separator is an error; an empty hash
/// field counts as absent.
pub fn parse_task_line(line: &str) -> (r: Result<Option<DownloadItem>, DlError>)
    ensures
        match r {
            Ok(None) => spec_parse_line(line@) == Ok::<
                Option<(Seq<char>, Option<Seq<char>>)>,
                DlError,
            >(None),
            Ok(Some(item)) => spec_parse_line(line@) == Ok::<
                Option<(Seq<char>, Option<Seq<char>>)>,
                DlError,
            >(Some(item_view(item))),
            Err(e) => spec_parse_line(line@) == Err::<
                Option<(Seq<char>, Option<Seq<char>>)>,
                DlError,
            >(e),
        },
{
    let chars = str_to_chars(line);
    let t = trim_chars(&chars);
    if t.len() == 0 {
        return Ok(None);
    }
    let p = find_bar(&t);
    if p == t.len() {
        return Ok(Some(DownloadItem { url: chars_to_string(&t), hash: None }));
    }
    let rest = sub_chars(&t, p + 1, t.len());
    let q = find_bar(&rest);
    if q < rest.len() {
        return Err(DlError::ExtraColumn);
    }
    let upart = sub_chars(&t, 0, p);
    let u = trim_chars(&upart);
    let h = trim_chars(&rest);
    if u.len() == 0 {
        return Ok(None);
    }
    if h.len() == 0 {
        return Ok(Some(DownloadItem { url: chars_to_string(&u), hash: None }));
    }
    Ok(Some(DownloadItem { url: chars_to_string(&u), hash: Some(chars_to_string(&h)) }))
}

/// One formatted record: `url` alone, or `url|hash`.
pub open spec fn spec_format_line(v: (Seq<char>, Option<Seq<char>>)) -> Seq<char> {
    match v.1 {
        None => v.0,
        Some(h) => v.0 + seq!['|'] + h,
    }
}

pub fn format_task_line(item: &DownloadItem) -> (r: String)
    ensures
        r@ == spec_format_line(item_view(*item)),
{
    match &item.hash {
        None => item.url.clone(),
        Some(h) => {
            let mut out = str_to_chars(item.url.as_str());
            out.push('|');
            let hv = str_to_chars(h.as_str());
            let mut i: usize = 0;
            while i < hv.len()
                invariant
                    i <= hv@.len(),
                    out@ == item.url@ + seq!['|'] + hv@.subrange(0, i as int),
                decreases hv@.len() - i,
            {
                out.push(hv[i]);
                i = i + 1;
                proof {
                    assert(out@ =~= item.url@ + seq!['|'] + hv@.subrange(0, i as int));
                }
            }
            proof {
                assert(out@ =~= spec_format_line(item_view(*item)));
            }
            chars_to_string(&out)
        },
    }
}

/// The whole generated list: each record on its own line, each line ended by
/// a newline.
pub open spec fn spec_format_list(items: Seq<(Seq<char>, Option<Seq<char>>)>) -> Seq<char>
    decreases items.len(),
{
    if items.len() == 0 {
        Seq::empty()
    } else {
        spec_format_list(items.drop_last()) + spec_format_line(items.last()) + seq!['\n']
    }
}

pub fn format_task_list(items: &Vec<DownloadItem>) -> (r: String)
    ensures
        r@ == spec_format_list(items_view(items@)),
{
    let mut out: Vec<char> = Vec::new();
    let mut i: usize = 0;
    proof {
        assert(items_view(items@).take(0).len() == 0);
    }
    while i < items.len()
        invariant
            i <= items@.len(),
            out@ == spec_format_list(items_view(items@).take(i as int)),
        decreases items@.len() - i,
    {
        let line = format_task_line(&items[i]);
        let lv = str_to_chars(line.as_str());
        let mut k: usize = 0;
        while k < lv.len()
            invariant
                k <= lv@.len(),
                out@ == spec_format_list(items_view(items@).take(i as int)) + lv@.subrange(
                    0,
                    k as int,
                ),
            decreases lv@.len() - k,
        {
            out.push(lv[k]);
            k = k + 1;
            proof {
                assert(out@ =~= spec_format_list(items_view(items@).take(i as int)) + lv@.subrange(
                    0,
                    k as int,
                ));
            }
        }
        out.push('\n');
        proof {
            assert(items_view(items@).take(i + 1).drop_last() =~= items_view(items@).take(i as int));
            assert(items_view(items@).take(i + 1).last() == item_view(items@[i as int]));
            assert(lv@.subrange(0, lv@.len() as int) =~= lv@);
            assert(out@ =~= spec_format_list(items_view(items@).take(i + 1)));
        }
        i = i + 1;
    }
    proof {
        assert(items_view(items@).take(items@.len() as int) =~= items_view(items@));
    }
    chars_to_string(&out)
}

/// A field that the formatter may write and the parser will hand back
/// unchanged: non-empty, no separator, no whitespace at either end.
pub open spec fn clean_field(s: Seq<char>) -> bool {
    &&& s.len() > 0
    &&& !is_space(s[0])
    &&& !is_space(s[s.len() - 1])
    &&& forall|k: int| 0 <= k < s.len() ==> s[k] != '|'
}

proof fn lemma_trim_clean(s: Seq<char>)
    requires
        s.len() > 0,
        !is_space(s[0]),
        !is_space(s[s.len() - 1]),
    ensures
        spec_trim(s) == s,
{
    assert(crate::text::leading_from(s, 0) == 0);
    assert(crate::text::trailing_from(s, s.len() as int) == s.len());
    assert(spec_trim(s) =~= s);
}

proof fn lemma_find_none(s: Seq<char>, c: char)
    requires
        forall|k: int| 0 <= k < s.len() ==> s[k] != c,
    ensures
        find_from(s, 0, c) == s.len(),
{
    lemma_find_from(s, 0, c);
    if find_from(s, 0, c) < s.len() {
        assert(s[find_from(s, 0, c)] == c);
    }
}

/// Writing a record and reading it back gives the record: the list the
/// generator emits is read unchanged by the run loop.
pub proof fn lemma_task_line_round_trip(url: Seq<char>, hash: Option<Seq<char>>)
    requires
        clean_field(url),
        match hash {
            Some(h) => clean_field(h),
            None => true,
        },
    ensures
        spec_parse_line(spec_format_line((url, hash))) == Ok::<
            Option<(Seq<char>, Option<Seq<char>>)>,
            DlError,
        >(Some((url, hash))),
{
    match hash {
        None => {
            lemma_trim_clean(url);
            lemma_find_none(url, '|');
        },
        Some(h) => {
            let line = url + seq!['|'] + h;
            assert(line[0] == url[0]);
            assert(line[line.len() - 1] == h[h.len() - 1]);
            lemma_trim_clean(line);
            lemma_find_from(line, 0, '|');
            let p = find_from(line, 0, '|');
            assert(line[url.len() as int] == '|');
            if p < url.len() {
                assert(line[p] == url[p]);
            }
            assert(p == url.len());
            let rest = line.subrange(p + 1, line.len() as int);
            assert(rest =~= h);
            lemma_find_none(h, '|');
            assert(line.subrange(0, p) =~= url);
            lemma_trim_clean(url);
            lemma_trim_clean(h);
        },
    }
}

/// What a sequence of lines means: the items of the non-blank lines in
/// order, or the first error.
pub open spec fn spec_parse_lines(lines: Seq<Seq<char>>) -> Result<
    Seq<(Seq<char>, Option<Seq<char>>)>,
    DlError,
>
    decreases lines.len(),
{
    if lines.len() == 0 {
        Ok(Seq::empty())
    } else {
        match spec_parse_lines(lines.drop_last()) {
            Err(e) => Err(e),
            Ok(items) => match spec_parse_line(lines.last()) {
                Err(e) => Err(e),
                Ok(None) => Ok(items),
                Ok(Some(v)) => Ok(items.push(v)),
            },
        }
    }
}

proof fn lemma_parse_lines_err(lines: Seq<Seq<char>>, n: int)
    requires
        0 <= n <= lines.len(),
        spec_parse_lines(lines.take(n)) is Err,
    ensures
        spec_parse_lines(lines) == spec_parse_lines(lines.take(n)),
    decreases lines.len() - n,
{
    if n == lines.len() {
        assert(lines.take(n) =~= lines);
    } else {
        assert(lines.take(n + 1).drop_last() =~= lines.take(n));
        lemma_parse_lines_err(lines, n + 1);
    }
}

/// Reads the whole task list. The items of the non-blank lines are returned
/// in order; the first unrecognized trailing column is an error.
pub fn parse_task_list(lines: &Vec<String>) -> (r: Result<Vec<DownloadItem>, DlError>)
    ensures
        match r {
            Ok(items) => spec_parse_lines(lines.deep_view()) == Ok::<
                Seq<(Seq<char>, Option<Seq<char>>)>,
                DlError,
            >(items_view(items@)),
            Err(e) => spec_parse_lines(lines.deep_view()) == Err::<
                Seq<(Seq<char>, Option<Seq<char>>)>,
                DlError,
            >(e),
        },
{
    let mut out: Vec<DownloadItem> = Vec::new();
    let mut i: usize = 0;
    proof {
        assert(lines.deep_view().take(0).len() == 0);
        assert(items_view(out@) =~= Seq::<(Seq<char>, Option<Seq<char>>)>::empty());
    }
    while i < lines.len()
        invariant
            i <= lines@.len(),
            lines.deep_view().len() == lines@.len(),
            spec_parse_lines(lines.deep_view().take(i as int)) == Ok::<
                Seq<(Seq<char>, Option<Seq<char>>)>,
                DlError,
            >(items_view(out@)),
        decreases lines@.len() - i,
    {
        proof {
            assert(lines.deep_view()[i as int] =~= lines@[i as int]@);
            assert(lines.deep_view().take(i + 1).drop_last() =~= lines.deep_view().take(i as int));
            assert(lines.deep_view().take(i + 1).last() == lines.deep_view()[i as int]);
        }
        let ghost prev = out@;
        match parse_task_line(lines[i].as_str()) {
            Err(e) => {
                proof {
                    lemma_parse_lines_err(lines.deep_view(), i + 1);
                }
                return Err(e);
            },
            Ok(None) => {},
            Ok(Some(item)) => {
                out.push(item);
                proof {
                    assert(items_view(out@) =~= items_view(prev).push(item_view(item)));
                }
            },
        }
        i = i + 1;
    }
    proof {
        assert(lines.deep_view().take(lines@.len() as int) =~= lines.deep_view());
    }
    Ok(out)
}

/// Under mandatory verification every item must carry a hash; the check runs
/// before any download begins.
pub fn check_hashes_present(items: &Vec<DownloadItem>, mode: VerifyMode) -> (r: Result<
    (),
    DlError,
>)
    ensures
        r is Ok <==> (mode == VerifyMode::On ==> forall|i: int|
            0 <= i < items@.len() ==> (#[trigger] items@[i]).hash is Some),
        r is Err ==> r == Result::<(), DlError>::Err(DlError::MissingHash),
{
    match mode {
        VerifyMode::On => {
            let mut i: usize = 0;
            while i < items.len()
                invariant
                    mode == VerifyMode::On,
                    i <= items@.len(),
                    forall|k: int| 0 <= k < i ==> (#[trigger] items@[k]).hash is Some,
                decreases items@.len() - i,
            {
                if items[i].hash.is_none() {
                    proof {
                        assert(!(forall|k: int|
                            0 <= k < items@.len() ==> (#[trigger] items@[k]).hash is Some)) by {
                            assert(!(items@[i as int].hash is Some));
                        }
                    }
                    return Err(DlError::MissingHash);
                }
                i = i + 1;
            }
            Ok(())
        },
        _ => Ok(()),
    }
}

/// The URLs of the items that carry no expected hash, in order.
pub open spec fn spec_missing_urls(items: Seq<(Seq<char>, Option<Seq<char>>)>) -> Seq<Seq<char>>
    decreases items.len(),
{
    if items.len() == 0 {
        Seq::empty()
    } else if items.last().1 is None {
        spec_missing_urls(items.drop_last()).push(items.last().0)
    } else {
        spec_missing_urls(items.drop_last())
    }
}

/// Names the offenders behind a mandatory-verification failure: every item
/// that lacks its expected hash, by URL, in list order.
pub fn missing_hash_urls(items: &Vec<DownloadItem>) -> (r: Vec<String>)
    ensures
        r.deep_view() == spec_missing_urls(items_view(items@)),
{
    let mut r: Vec<String> = Vec::new();
    let mut i: usize = 0;
    proof {
        assert(items_view(items@).take(0).len() == 0);
        assert(r.deep_view() =~= Seq::<Seq<char>>::empty());
    }
    while i < items.len()
        invariant
            i <= items@.len(),
            r.deep_view() == spec_missing_urls(items_view(items@).take(i as int)),
        decreases items@.len() - i,
    {
        proof {
            assert(items_view(items@).take(i + 1).drop_last() =~= items_view(items@).take(i as int));
            assert(items_view(items@).take(i + 1).last() == item_view(items@[i as int]));
        }
        let ghost prev = r.deep_view();
        if items[i].hash.is_none() {
            r.push(items[i].url.clone());
            proof {
                assert(r.deep_view() =~= prev.push(items@[i as int].url@));
            }
        }
        i = i + 1;
    }
    proof {
        assert(items_view(items@).take(items@.len() as int) =~= items_view(items@));
    }
    r
}

/// The expected digest for a URL: that of the first item with this URL that
/// carries one.
pub open spec fn spec_lookup_hash(items: Seq<(Seq<char>, Option<Seq<char>>)>, url: Seq<char>)
    -> Option<Seq<char>>
    decreases items.len(),
{
    if items.len() == 0 {
        None
    } else if items[0].0 == url && items[0].1 is Some {
        items[0].1
    } else {
        spec_lookup_hash(items.drop_first(), url)
    }
}

pub fn expected_hash_for(items: &Vec<DownloadItem>, url: &str) -> (r: Option<String>)
    ensures
        match r {
            Some(h) => spec_lookup_hash(items_view(items@), url@) == Some(h@),
            None => spec_lookup_hash(items_view(items@), url@) is None,
        },
{
    proof {
        assert(items_view(items@).skip(0) =~= items_view(items@));
    }
    let mut i: usize = 0;
    while i < items.len()
        invariant
            i <= items@.len(),
            spec_lookup_hash(items_view(items@), url@) == spec_lookup_hash(
                items_view(items@).skip(i as int),
                url@,
            ),
        decreases items@.len() - i,
    {
        proof {
            assert(items_view(items@).skip(i as int).drop_first() =~= items_view(items@).skip(
                i + 1,
            ));
            assert(items_view(items@).skip(i as int)[0] == item_view(items@[i as int]));
        }
        let item = &items[i];
        if crate::text::str_eq(item.url.as_str(), url) {
            match &item.hash {
                Some(h) => {
                    return Some(h.clone());
                },
                None => {},
            }
        }
        i = i + 1;
    }
    proof {
        assert(items_view(items@).skip(items@.len() as int) =~= Seq::<
            (Seq<char>, Option<Seq<char>>),
        >::empty());
    }
    None
}

} // verus!
