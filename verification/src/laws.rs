use vstd::prelude::*;
use crate::events::{EventModel, ExtractionError, instr_tag};
use crate::markup::{scan, scan_result, spec_extract, decoded_text, ScanState};
use crate::textops::{
    spec_trim, all_ws, has_visible, contains_seq, lemma_trim_concat_ws, lemma_trim_contains,
    lemma_trim_idempotent,
};
use crate::package::spec_extract_package;
use crate::merge::{spec_merge, merge_scan, doc_separator};

verus! {

/// Scanning a concatenation scans the first part and, where that part was
/// fully consumed without finishing, goes on with the second from the state
/// the first left behind.
pub proof fn lemma_scan_append(
    p: Seq<Result<EventModel, ExtractionError>>,
    q: Seq<Result<EventModel, ExtractionError>>,
    strip: bool,
    b: bool,
    acc: Seq<char>,
)
    ensures
        scan(p + q, strip, b, acc) == (match scan(p, strip, b, acc) {
            ScanState::Scanning { in_field_instruction, acc: a2 } => scan(
                q,
                strip,
                in_field_instruction,
                a2,
            ),
            ScanState::Finished { outcome } => ScanState::Finished { outcome },
        }),
    decreases p.len(),
{
    if p.len() == 0 {
        assert(p + q =~= q);
    } else {
        let rest = p.drop_first();
        assert((p + q)[0] == p[0]);
        assert((p + q).drop_first() =~= rest + q);
        match p[0] {
            Err(_) => {},
            Ok(ev) => match ev {
                EventModel::Start(n) => {
                    lemma_scan_append(
                        rest,
                        q,
                        strip,
                        if n == instr_tag() {
                            true
                        } else {
                            b
                        },
                        acc,
                    );
                },
                EventModel::End(n) => {
                    lemma_scan_append(
                        rest,
                        q,
                        strip,
                        if n == instr_tag() {
                            false
                        } else {
                            b
                        },
                        acc,
                    );
                },
                EventModel::Text(raw) => {
                    if strip && b {
                        lemma_scan_append(rest, q, strip, b, acc);
                    } else {
                        match decoded_text(raw) {
                            None => {},
                            Some(t) => {
                                lemma_scan_append(rest, q, strip, b, acc + t + seq![' ']);
                            },
                        }
                    }
                },
                EventModel::Other => {
                    lemma_scan_append(rest, q, strip, b, acc);
                },
                EventModel::EndOfStream => {},
            },
        }
    }
}

/// A scan only ever appends to the accumulated text: whatever state or
/// outcome it reaches, the text it started from sits at the front.
pub proof fn lemma_scan_acc_extends(
    outcomes: Seq<Result<EventModel, ExtractionError>>,
    strip: bool,
    b: bool,
    acc: Seq<char>,
)
    ensures
        match scan(outcomes, strip, b, acc) {
            ScanState::Scanning { in_field_instruction, acc: a2 } => exists|ext: Seq<char>|
                a2 == acc + ext,
            ScanState::Finished { outcome } => outcome matches Ok(t) ==> exists|ext: Seq<char>|
                t == spec_trim(acc + ext),
        },
    decreases outcomes.len(),
{
    let nothing = Seq::<char>::empty();
    if outcomes.len() == 0 {
        assert(acc + nothing =~= acc);
        assert(scan(outcomes, strip, b, acc)->Scanning_acc == acc + nothing);
    } else {
        match outcomes[0] {
            Err(_) => {},
            Ok(ev) => match ev {
                EventModel::Start(n) => {
                    lemma_scan_acc_extends(
                        outcomes.drop_first(),
                        strip,
                        if n == instr_tag() {
                            true
                        } else {
                            b
                        },
                        acc,
                    );
                },
                EventModel::End(n) => {
                    lemma_scan_acc_extends(
                        outcomes.drop_first(),
                        strip,
                        if n == instr_tag() {
                            false
                        } else {
                            b
                        },
                        acc,
                    );
                },
                EventModel::Text(raw) => {
                    if strip && b {
                        lemma_scan_acc_extends(outcomes.drop_first(), strip, b, acc);
                    } else {
                        match decoded_text(raw) {
                            None => {},
                            Some(t) => {
                                let acc2 = acc + t + seq![' '];
                                lemma_scan_acc_extends(outcomes.drop_first(), strip, b, acc2);
                                match scan(outcomes.drop_first(), strip, b, acc2) {
                                    ScanState::Scanning { in_field_instruction, acc: a2 } => {
                                        let e2 = choose|e2: Seq<char>| a2 == acc2 + e2;
                                        assert(acc2 + e2 =~= acc + (t + seq![' '] + e2));
                                    },
                                    ScanState::Finished { outcome } => {
                                        match outcome {
                                            Ok(t0) => {
                                                let e2 = choose|e2: Seq<char>|
                                                    t0 == spec_trim(acc2 + e2);
                                                assert(acc2 + e2 =~= acc + (t + seq![' '] + e2));
                                                assert(t0 == spec_trim(
                                                    acc + (t + seq![' '] + e2),
                                                ));
                                            },
                                            Err(_) => {},
                                        }
                                    },
                                }
                            },
                        }
                    }
                },
                EventModel::Other => {
                    lemma_scan_acc_extends(outcomes.drop_first(), strip, b, acc);
                },
                EventModel::EndOfStream => {
                    assert(acc + nothing =~= acc);
                    assert(scan(outcomes, strip, b, acc)->Finished_outcome->Ok_0 == spec_trim(
                        acc + nothing,
                    ));
                },
            },
        }
    }
}

proof fn lemma_scan_strip_no_instr(
    outcomes: Seq<Result<EventModel, ExtractionError>>,
    acc: Seq<char>,
)
    requires
        forall|i: int|
            0 <= i < outcomes.len() ==> outcomes[i] != Ok::<EventModel, ExtractionError>(
                EventModel::Start(instr_tag()),
            ),
    ensures
        scan(outcomes, true, false, acc) == scan(outcomes, false, false, acc),
    decreases outcomes.len(),
{
    if outcomes.len() > 0 {
        let rest = outcomes.drop_first();
        assert forall|i: int|
            0 <= i < rest.len() implies rest[i] != Ok::<EventModel, ExtractionError>(
            EventModel::Start(instr_tag()),
        ) by {
            assert(rest[i] == outcomes[i + 1]);
        }
        match outcomes[0] {
            Err(_) => {},
            Ok(ev) => match ev {
                EventModel::Start(n) => {
                    assert(n != instr_tag());
                    lemma_scan_strip_no_instr(rest, acc);
                },
                EventModel::End(_) => {
                    lemma_scan_strip_no_instr(rest, acc);
                },
                EventModel::Text(raw) => {
                    match decoded_text(raw) {
                        None => {},
                        Some(t) => {
                            lemma_scan_strip_no_instr(rest, acc + t + seq![' ']);
                        },
                    }
                },
                EventModel::Other => {
                    lemma_scan_strip_no_instr(rest, acc);
                },
                EventModel::EndOfStream => {},
            },
        }
    }
}

/// A stream with no field-instruction element extracts to the same text
/// whether or not stripping is asked for.
pub proof fn lemma_strip_without_instructions(outcomes: Seq<Result<EventModel, ExtractionError>>)
    requires
        forall|i: int|
            0 <= i < outcomes.len() ==> outcomes[i] != Ok::<EventModel, ExtractionError>(
                EventModel::Start(instr_tag()),
            ),
    ensures
        spec_extract(outcomes, true) == spec_extract(outcomes, false),
{
    lemma_scan_strip_no_instr(outcomes, Seq::<char>::empty());
}

/// With stripping enabled, the extracted text does not depend on what a
/// field-instruction element holds: the element may as well be empty.
pub proof fn lemma_stripped_ignores_instruction_content(
    pre: Seq<Result<EventModel, ExtractionError>>,
    raw: Seq<u8>,
    post: Seq<Result<EventModel, ExtractionError>>,
)
    ensures
        ({
            let open = Ok::<EventModel, ExtractionError>(EventModel::Start(instr_tag()));
            let content = Ok::<EventModel, ExtractionError>(EventModel::Text(raw));
            let close = Ok::<EventModel, ExtractionError>(EventModel::End(instr_tag()));
            spec_extract(pre + seq![open, content, close] + post, true) == spec_extract(
                pre + seq![open, close] + post,
                true,
            )
        }),
{
    let open = Ok::<EventModel, ExtractionError>(EventModel::Start(instr_tag()));
    let content = Ok::<EventModel, ExtractionError>(EventModel::Text(raw));
    let close = Ok::<EventModel, ExtractionError>(EventModel::End(instr_tag()));
    let nothing = Seq::<char>::empty();
    let q1 = seq![open, content, close] + post;
    let q2 = seq![open, close] + post;
    assert(pre + seq![open, content, close] + post =~= pre + q1);
    assert(pre + seq![open, close] + post =~= pre + q2);
    lemma_scan_append(pre, q1, true, false, nothing);
    lemma_scan_append(pre, q2, true, false, nothing);
    match scan(pre, true, false, nothing) {
        ScanState::Finished { outcome } => {},
        ScanState::Scanning { in_field_instruction: f, acc: a } => {
            assert(q1[0] == open);
            assert(q1.drop_first() =~= seq![content, close] + post);
            assert((seq![content, close] + post)[0] == content);
            assert((seq![content, close] + post).drop_first() =~= seq![close] + post);
            assert((seq![close] + post)[0] == close);
            assert((seq![close] + post).drop_first() =~= post);
            assert(scan(q1, true, f, a) == scan(seq![content, close] + post, true, true, a));
            assert(scan(seq![content, close] + post, true, true, a) == scan(
                seq![close] + post,
                true,
                true,
                a,
            ));
            assert(scan(seq![close] + post, true, true, a) == scan(post, true, false, a));
            assert(q2[0] == open);
            assert(q2.drop_first() =~= seq![close] + post);
            assert(scan(q2, true, f, a) == scan(seq![close] + post, true, true, a));
        },
    }
}

/// A text run that the scan keeps — one that decodes, holds a visible
/// character, and is not suppressed — is present in the extracted text,
/// wherever it stands in the stream, whenever extraction succeeds.
pub proof fn lemma_kept_chunk_present(
    pre: Seq<Result<EventModel, ExtractionError>>,
    raw: Seq<u8>,
    post: Seq<Result<EventModel, ExtractionError>>,
    strip: bool,
    t: Seq<char>,
)
    ensures
        ({
            let st = scan(pre, strip, false, Seq::<char>::empty());
            let doc = pre + seq![Ok::<EventModel, ExtractionError>(EventModel::Text(raw))] + post;
            st matches ScanState::Scanning { in_field_instruction, acc } ==> (decoded_text(raw)
                matches Some(d) ==> ((!(strip && in_field_instruction) && has_visible(d)
                && spec_extract(doc, strip) == Ok::<Seq<char>, ExtractionError>(t))
                ==> contains_seq(t, spec_trim(d))))
        }),
{
    let nothing = Seq::<char>::empty();
    let chunk = seq![Ok::<EventModel, ExtractionError>(EventModel::Text(raw))];
    let doc = pre + chunk + post;
    let q = chunk + post;
    assert(doc =~= pre + q);
    lemma_scan_append(pre, q, strip, false, nothing);
    match scan(pre, strip, false, nothing) {
        ScanState::Finished { outcome } => {},
        ScanState::Scanning { in_field_instruction: f, acc: acc0 } => {
            if !(strip && f) {
                match decoded_text(raw) {
                    None => {},
                    Some(d) => {
                        if has_visible(d) && spec_extract(doc, strip) == Ok::<
                            Seq<char>,
                            ExtractionError,
                        >(t) {
                            assert(q[0] == chunk[0]);
                            assert(q.drop_first() =~= post);
                            let acc1 = acc0 + d + seq![' '];
                            assert(scan(doc, strip, false, nothing) == scan(
                                post,
                                strip,
                                f,
                                acc1,
                            ));
                            lemma_scan_acc_extends(post, strip, f, acc1);
                            match scan(post, strip, f, acc1) {
                                ScanState::Scanning { in_field_instruction, acc: a2 } => {
                                    let e2 = choose|e2: Seq<char>| a2 == acc1 + e2;
                                    assert(acc1 + e2 =~= acc0 + d + (seq![' '] + e2));
                                    assert(t == spec_trim(acc0 + d + (seq![' '] + e2)));
                                    lemma_trim_contains(acc0, d, seq![' '] + e2);
                                },
                                ScanState::Finished { outcome } => {
                                    match outcome {
                                        Ok(t0) => {
                                            let e2 = choose|e2: Seq<char>|
                                                t0 == spec_trim(acc1 + e2);
                                            assert(acc1 + e2 =~= acc0 + d + (seq![' '] + e2));
                                            assert(t == spec_trim(acc0 + d + (seq![' '] + e2)));
                                            lemma_trim_contains(acc0, d, seq![' '] + e2);
                                        },
                                        Err(_) => {},
                                    }
                                },
                            }
                        }
                    },
                }
            }
        },
    }
}

/// A visible text run outside any field-instruction element is present in
/// the extracted text whatever the stripping flag says — whenever the run
/// decodes, holds a visible character, and extraction succeeds.
pub proof fn lemma_visible_run_present(
    pre: Seq<Result<EventModel, ExtractionError>>,
    raw: Seq<u8>,
    post: Seq<Result<EventModel, ExtractionError>>,
    strip: bool,
    t: Seq<char>,
)
    ensures
        ({
            let st = scan(pre, strip, false, Seq::<char>::empty());
            let doc = pre + seq![Ok::<EventModel, ExtractionError>(EventModel::Text(raw))] + post;
            st matches ScanState::Scanning { in_field_instruction, acc } ==> (decoded_text(raw)
                matches Some(d) ==> ((!in_field_instruction && has_visible(d) && spec_extract(
                doc,
                strip,
            ) == Ok::<Seq<char>, ExtractionError>(t)) ==> contains_seq(t, spec_trim(d))))
        }),
{
    lemma_kept_chunk_present(pre, raw, post, strip, t);
}

/// With stripping disabled, even a field-instruction element's content is
/// present in the extracted text — whenever the content decodes, holds a
/// visible character, and extraction succeeds.
pub proof fn lemma_unstripped_keeps_instruction_content(
    pre: Seq<Result<EventModel, ExtractionError>>,
    raw: Seq<u8>,
    post: Seq<Result<EventModel, ExtractionError>>,
    t: Seq<char>,
)
    ensures
        ({
            let open = Ok::<EventModel, ExtractionError>(EventModel::Start(instr_tag()));
            let content = Ok::<EventModel, ExtractionError>(EventModel::Text(raw));
            let close = Ok::<EventModel, ExtractionError>(EventModel::End(instr_tag()));
            let st = scan(pre, false, false, Seq::<char>::empty());
            let doc = pre + seq![open, content, close] + post;
            st is Scanning ==> (decoded_text(raw) matches Some(d) ==> ((has_visible(d)
                && spec_extract(doc, false) == Ok::<Seq<char>, ExtractionError>(t))
                ==> contains_seq(t, spec_trim(d))))
        }),
{
    let open = Ok::<EventModel, ExtractionError>(EventModel::Start(instr_tag()));
    let content = Ok::<EventModel, ExtractionError>(EventModel::Text(raw));
    let close = Ok::<EventModel, ExtractionError>(EventModel::End(instr_tag()));
    let nothing = Seq::<char>::empty();
    let doc = pre + seq![open, content, close] + post;
    let pre2 = pre + seq![open];
    let post2 = seq![close] + post;
    assert(doc =~= pre2 + seq![content] + post2);
    lemma_scan_append(pre, seq![open], false, false, nothing);
    match scan(pre, false, false, nothing) {
        ScanState::Finished { outcome } => {},
        ScanState::Scanning { in_field_instruction: f, acc: a } => {
            assert(seq![open][0] == open);
            assert(seq![open].drop_first() =~= Seq::<Result<EventModel, ExtractionError>>::empty());
            assert(scan(seq![open], false, f, a) == scan(
                Seq::<Result<EventModel, ExtractionError>>::empty(),
                false,
                true,
                a,
            ));
            assert(scan(pre2, false, false, nothing) == (ScanState::Scanning {
                in_field_instruction: true,
                acc: a,
            }));
            lemma_kept_chunk_present(pre2, raw, post2, false, t);
        },
    }
}

/// The merged text of two documents is the trim of their extracted texts
/// joined by the separator — whenever both documents extract.
pub proof fn lemma_merge_pair(a: Seq<u8>, b: Seq<u8>, strip: bool)
    ensures
        spec_extract_package(a, strip) matches Ok(ta) ==> (spec_extract_package(b, strip)
            matches Ok(tb) ==> spec_merge(seq![a, b], strip) == Ok::<Seq<char>, ExtractionError>(
            spec_trim(ta + doc_separator() + tb),
        )),
{
    let nothing = Seq::<char>::empty();
    match spec_extract_package(a, strip) {
        Err(_) => {},
        Ok(ta) => {
            match spec_extract_package(b, strip) {
                Err(_) => {},
                Ok(tb) => {
                    let docs = seq![a, b];
                    assert(docs[0] == a);
                    assert(docs.drop_first() =~= seq![b]);
                    assert(seq![b][0] == b);
                    assert(seq![b].drop_first() =~= Seq::<Seq<u8>>::empty());
                    let acc1 = nothing + ta + doc_separator();
                    let acc2 = acc1 + tb + doc_separator();
                    assert(merge_scan(docs, strip, nothing) == merge_scan(seq![b], strip, acc1));
                    assert(merge_scan(seq![b], strip, acc1) == merge_scan(
                        Seq::<Seq<u8>>::empty(),
                        strip,
                        acc2,
                    ));
                    assert(merge_scan(docs, strip, nothing) == Ok::<Seq<char>, ExtractionError>(
                        spec_trim(acc2),
                    ));
                    assert(all_ws(doc_separator())) by {
                        assert(doc_separator()[0] == '\n');
                        assert(doc_separator()[1] == '\n');
                    }
                    lemma_trim_concat_ws(acc1 + tb, doc_separator());
                    assert(acc2 =~= (acc1 + tb) + doc_separator());
                    assert(acc1 + tb =~= ta + doc_separator() + tb);
                },
            }
        },
    }
}

/// Extracting the trivial one-run document that holds already-trimmed text
/// yields that text unchanged.
pub proof fn lemma_extract_idempotent(raw: Seq<u8>, t: Seq<char>, strip: bool)
    ensures
        (decoded_text(raw) == Some(t) && spec_trim(t) == t) ==> spec_extract(
            seq![
                Ok::<EventModel, ExtractionError>(EventModel::Text(raw)),
                Ok::<EventModel, ExtractionError>(EventModel::EndOfStream),
            ],
            strip,
        ) == Ok::<Seq<char>, ExtractionError>(t),
{
    let chunk = Ok::<EventModel, ExtractionError>(EventModel::Text(raw));
    let eos = Ok::<EventModel, ExtractionError>(EventModel::EndOfStream);
    let nothing = Seq::<char>::empty();
    if decoded_text(raw) == Some(t) && spec_trim(t) == t {
        let doc = seq![chunk, eos];
        assert(doc[0] == chunk);
        assert(doc.drop_first() =~= seq![eos]);
        assert(seq![eos][0] == eos);
        let acc1 = nothing + t + seq![' '];
        assert(scan(doc, strip, false, nothing) == scan(seq![eos], strip, false, acc1));
        assert(scan(seq![eos], strip, false, acc1) == (ScanState::Finished {
            outcome: Ok::<Seq<char>, ExtractionError>(spec_trim(acc1)),
        }));
        assert(all_ws(seq![' ']));
        lemma_trim_concat_ws(nothing + t, seq![' ']);
        assert(acc1 =~= (nothing + t) + seq![' ']);
        assert(nothing + t =~= t);
    }
}

proof fn lemma_scan_error_terminal(
    outcomes: Seq<Result<EventModel, ExtractionError>>,
    strip: bool,
    b: bool,
    acc: Seq<char>,
    i: int,
)
    requires
        0 <= i < outcomes.len(),
        outcomes[i] is Err,
        forall|j: int|
            0 <= j < i ==> outcomes[j] != Ok::<EventModel, ExtractionError>(
                EventModel::EndOfStream,
            ),
    ensures
        scan_result(outcomes, strip, b, acc) is Err,
    decreases i,
{
    let rest = outcomes.drop_first();
    if i > 0 {
        assert forall|j: int|
            0 <= j < i - 1 implies rest[j] != Ok::<EventModel, ExtractionError>(
            EventModel::EndOfStream,
        ) by {
            assert(rest[j] == outcomes[j + 1]);
        }
        assert(rest[i - 1] == outcomes[i]);
        match outcomes[0] {
            Err(_) => {},
            Ok(ev) => match ev {
                EventModel::Start(n) => {
                    lemma_scan_error_terminal(
                        rest,
                        strip,
                        if n == instr_tag() {
                            true
                        } else {
                            b
                        },
                        acc,
                        i - 1,
                    );
                },
                EventModel::End(n) => {
                    lemma_scan_error_terminal(
                        rest,
                        strip,
                        if n == instr_tag() {
                            false
                        } else {
                            b
                        },
                        acc,
                        i - 1,
                    );
                },
                EventModel::Text(raw) => {
                    if strip && b {
                        lemma_scan_error_terminal(rest, strip, b, acc, i - 1);
                    } else {
                        match decoded_text(raw) {
                            None => {},
                            Some(t) => {
                                lemma_scan_error_terminal(
                                    rest,
                                    strip,
                                    b,
                                    acc + t + seq![' '],
                                    i - 1,
                                );
                            },
                        }
                    }
                },
                EventModel::Other => {
                    lemma_scan_error_terminal(rest, strip, b, acc, i - 1);
                },
                EventModel::EndOfStream => {},
            },
        }
    }
}

/// A parse failure never yields a partial result: where an error outcome
/// stands in the stream before any end-of-stream event, extraction fails
/// outright.
pub proof fn lemma_error_means_no_text(
    outcomes: Seq<Result<EventModel, ExtractionError>>,
    strip: bool,
    i: int,
)
    requires
        0 <= i < outcomes.len(),
        outcomes[i] is Err,
        forall|j: int|
            0 <= j < i ==> outcomes[j] != Ok::<EventModel, ExtractionError>(
                EventModel::EndOfStream,
            ),
    ensures
        spec_extract(outcomes, strip) is Err,
{
    lemma_scan_error_terminal(outcomes, strip, false, Seq::<char>::empty(), i);
}

proof fn lemma_scan_result_trimmed(
    outcomes: Seq<Result<EventModel, ExtractionError>>,
    strip: bool,
    b: bool,
    acc: Seq<char>,
)
    ensures
        scan_result(outcomes, strip, b, acc) matches Ok(t) ==> spec_trim(t) == t,
    decreases outcomes.len(),
{
    if outcomes.len() == 0 {
        lemma_trim_idempotent(acc);
    } else {
        match outcomes[0] {
            Err(_) => {},
            Ok(ev) => match ev {
                EventModel::Start(n) => {
                    lemma_scan_result_trimmed(
                        outcomes.drop_first(),
                        strip,
                        if n == instr_tag() {
                            true
                        } else {
                            b
                        },
                        acc,
                    );
                },
                EventModel::End(n) => {
                    lemma_scan_result_trimmed(
                        outcomes.drop_first(),
                        strip,
                        if n == instr_tag() {
                            false
                        } else {
                            b
                        },
                        acc,
                    );
                },
                EventModel::Text(raw) => {
                    if strip && b {
                        lemma_scan_result_trimmed(outcomes.drop_first(), strip, b, acc);
                    } else {
                        match decoded_text(raw) {
                            None => {},
                            Some(t) => {
                                lemma_scan_result_trimmed(
                                    outcomes.drop_first(),
                                    strip,
                                    b,
                                    acc + t + seq![' '],
                                );
                            },
                        }
                    }
                },
                EventModel::Other => {
                    lemma_scan_result_trimmed(outcomes.drop_first(), strip, b, acc);
                },
                EventModel::EndOfStream => {
                    lemma_trim_idempotent(acc);
                },
            },
        }
    }
}

/// Extraction only ever succeeds with trimmed text, so extracting what a
/// successful extraction produced, as a trivial one-run document, gives it
/// back unchanged.
pub proof fn lemma_extract_output_trimmed(
    outcomes: Seq<Result<EventModel, ExtractionError>>,
    strip: bool,
)
    ensures
        spec_extract(outcomes, strip) matches Ok(t) ==> spec_trim(t) == t,
{
    lemma_scan_result_trimmed(outcomes, strip, false, Seq::<char>::empty());
}

} // verus!

