//! Provider listings: turning a model file listing into download items, and
//! where the generated task list lives by default.

use vstd::prelude::*;
use vstd::string::StringExecFns;
use crate::tasks::DownloadItem;
use crate::text::{chars_eq_ci, eq_ignore_ascii_case, lower_char, ascii_lowercase};

verus! {

/// The listing endpoint for a model.
pub open spec fn spec_api_url(model: Seq<char>) -> Seq<char> {
    "https://modelscope.cn/api/v1/models/"@ + model + "/repo/files"@
}

pub fn modelscope_api_url(model: &str) -> (r: String)
    ensures
        r@ == spec_api_url(model@),
{
    let mut r = "https://modelscope.cn/api/v1/models/".to_owned();
    r.append(model);
    r.append("/repo/files");
    r
}

/// The resolve URL of one listed file.
pub open spec fn spec_file_url(model: Seq<char>, revision: Seq<char>, path: Seq<char>) -> Seq<
    char,
> {
    "https://modelscope.cn/models/"@ + model + "/resolve/"@ + revision + "/"@ + path
}

pub fn modelscope_file_url(model: &str, revision: &str, path: &str) -> (r: String)
    ensures
        r@ == spec_file_url(model@, revision@, path@),
{
    let mut r = "https://modelscope.cn/models/".to_owned();
    r.append(model);
    r.append("/resolve/");
    r.append(revision);
    r.append("/");
    r.append(path);
    r
}

/// The items of a model listing: one per `(path, sha256)` record, in order,
/// each with its resolve URL and its digest.
pub fn items_from_listing(model: &str, revision: &str, files: &Vec<(String, String)>) -> (r: Vec<
    DownloadItem,
>)
    ensures
        r@.len() == files@.len(),
        forall|i: int|
            0 <= i < files@.len() ==> (#[trigger] r@[i]).url@ == spec_file_url(
                model@,
                revision@,
                files@[i].0@,
            ),
        forall|i: int|
            0 <= i < files@.len() ==> (#[trigger] r@[i]).hash == Some(files@[i].1),
{
    let mut r: Vec<DownloadItem> = Vec::new();
    let mut i: usize = 0;
    while i < files.len()
        invariant
            i <= files@.len(),
            r@.len() == i,
            forall|k: int|
                0 <= k < i ==> (#[trigger] r@[k]).url@ == spec_file_url(
                    model@,
                    revision@,
                    files@[k].0@,
                ),
            forall|k: int| 0 <= k < i ==> (#[trigger] r@[k]).hash == Some(files@[k].1),
        decreases files@.len() - i,
    {
        let url = modelscope_file_url(model, revision, files[i].0.as_str());
        let hash = files[i].1.clone();
        r.push(DownloadItem { url, hash: Some(hash) });
        i = i + 1;
    }
    r
}

/// Whether a provider tag names the one supported provider, compared without
/// regard to ASCII case.
pub fn provider_supported(provider: &str) -> (r: bool)
    ensures
        r == chars_eq_ci(provider@, "modelscope"@),
{
    eq_ignore_ascii_case(provider, "modelscope")
}

/// Where a generated list goes when the host was not told otherwise:
/// `downloads/<provider, lowercased>/<model>/download.txt`.
pub fn default_list_path(provider: &str, model: &str) -> (r: String)
    ensures
        r@.len() == "downloads/"@.len() + provider@.len() + "/"@.len() + model@.len()
            + "/download.txt"@.len(),
        ({
            let lowered = Seq::new(provider@.len(), |i: int| lower_char(provider@[i]));
            r@ == "downloads/"@ + lowered + "/"@ + model@ + "/download.txt"@
        }),
{
    let low = ascii_lowercase(provider);
    proof {
        assert(low@ =~= Seq::new(provider@.len(), |i: int| lower_char(provider@[i])));
    }
    let mut r = "downloads/".to_owned();
    r.append(low.as_str());
    r.append("/");
    r.append(model);
    r.append("/download.txt");
    r
}

} // verus!
