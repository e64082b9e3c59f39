use vstd::prelude::*;
use vstd::string::StringExecFns;
use crate::events::{ExtractionError, text_res_view};
use crate::package::{spec_extract_package, extract_text_from_docx};
use crate::textops::{spec_trim, trim_str};

verus! {

/// The separator written between two documents' text in the merged result.
pub open spec fn doc_separator() -> Seq<char> {
    seq!['\n', '\n']
}

/// Runs the merger over a sequence of document packages, starting from the
/// text accumulated so far: each document's extracted text is appended with
/// the separator after it, and the first failed extraction is the result.
/// When every document went through, the result is the accumulated text,
/// trimmed.
pub open spec fn merge_scan(docs: Seq<Seq<u8>>, strip: bool, acc: Seq<char>) -> Result<
    Seq<char>,
    ExtractionError,
>
    decreases docs.len(),
{
    if docs.len() == 0 {
        Ok(spec_trim(acc))
    } else {
        match spec_extract_package(docs[0], strip) {
            Err(e) => Err(e),
            Ok(t) => merge_scan(docs.drop_first(), strip, acc + t + doc_separator()),
        }
    }
}

/// The merged text of a sequence of document packages, in their order.
pub open spec fn spec_merge(docs: Seq<Seq<u8>>, strip: bool) -> Result<
    Seq<char>,
    ExtractionError,
> {
    merge_scan(docs, strip, Seq::empty())
}

/// Merges the text extracted from the given document packages into one
/// string, in their order, with two newline characters between documents
/// and the whole trimmed of outer whitespace. The first document that fails
/// to extract aborts the merge with its error; no partial result is
/// returned.
pub fn merge_docx_files(sources: &Vec<Vec<u8>>, strip_hyperlinks: bool) -> (r: Result<
    String,
    ExtractionError,
>)
    ensures
        text_res_view(r) == spec_merge(sources.deep_view(), strip_hyperlinks),
{
    let ghost docs = sources.deep_view();
    let ghost target = spec_merge(docs, strip_hyperlinks);
    let mut merged = String::new();
    let mut i: usize = 0;
    proof {
        assert(docs.skip(0) =~= docs);
    }
    while i < sources.len()
        invariant
            i <= sources.len(),
            docs == sources.deep_view(),
            target == spec_merge(docs, strip_hyperlinks),
            merge_scan(docs.skip(i as int), strip_hyperlinks, merged@) == target,
        decreases sources.len() - i,
    {
        let ghost rest = docs.skip(i as int);
        proof {
            assert(rest.len() > 0);
            assert(rest[0] == sources@[i as int].deep_view());
            assert(sources@[i as int].deep_view() =~= sources@[i as int]@);
        }
        let text = match extract_text_from_docx(&sources[i], strip_hyperlinks) {
            Ok(t) => t,
            Err(e) => {
                return Err(e);
            },
        };
        merged.append(text.as_str());
        merged.append("\n\n");
        proof {
            reveal_strlit("\n\n");
            assert("\n\n"@ =~= doc_separator());
            assert(rest.drop_first() =~= docs.skip(i + 1));
        }
        i = i + 1;
    }
    proof {
        assert(docs.skip(i as int) =~= Seq::<Seq<u8>>::empty());
    }
    Ok(trim_str(merged.as_str()))
}

} // verus!
