use vstd::prelude::*;
use vstd::string::StrSliceExecFns;

verus! {

/// Whitespace, for the purposes of trimming: the blank characters that the
/// markup's text content can carry around its visible words.
pub open spec fn is_ws(c: char) -> bool {
    c == ' ' || c == '\t' || c == '\r' || c == '\n'
}

/// Every character of `s` is whitespace.
pub open spec fn all_ws(s: Seq<char>) -> bool {
    forall|i: int| 0 <= i < s.len() ==> is_ws(s[i])
}

/// `s` with its leading whitespace removed.
pub open spec fn trim_start(s: Seq<char>) -> Seq<char>
    decreases s.len(),
{
    if s.len() > 0 && is_ws(s[0]) {
        trim_start(s.drop_first())
    } else {
        s
    }
}

/// `s` with its trailing whitespace removed.
pub open spec fn trim_end(s: Seq<char>) -> Seq<char>
    decreases s.len(),
{
    if s.len() > 0 && is_ws(s.last()) {
        trim_end(s.drop_last())
    } else {
        s
    }
}

/// `s` with both its leading and its trailing whitespace removed.
pub open spec fn spec_trim(s: Seq<char>) -> Seq<char> {
    trim_end(trim_start(s))
}

/// Removing leading whitespace keeps the suffix that starts at the first
/// non-whitespace character.
pub proof fn lemma_trim_start_at(s: Seq<char>, k: int)
    requires
        0 <= k <= s.len(),
        forall|j: int| 0 <= j < k ==> is_ws(s[j]),
        k < s.len() ==> !is_ws(s[k]),
    ensures
        trim_start(s) == s.subrange(k, s.len() as int),
    decreases k,
{
    if k == 0 {
        assert(trim_start(s) =~= s.subrange(0, s.len() as int));
    } else {
        let t = s.drop_first();
        assert(forall|j: int| 0 <= j < k - 1 ==> is_ws(t[j]));
        lemma_trim_start_at(t, k - 1);
        assert(t.subrange(k - 1, t.len() as int) =~= s.subrange(k, s.len() as int));
    }
}

/// Removing trailing whitespace keeps the prefix that ends just after the
/// last non-whitespace character.
pub proof fn lemma_trim_end_at(s: Seq<char>, k: int)
    requires
        0 <= k <= s.len(),
        forall|j: int| k <= j < s.len() ==> is_ws(s[j]),
        k > 0 ==> !is_ws(s[k - 1]),
    ensures
        trim_end(s) == s.subrange(0, k),
    decreases s.len() - k,
{
    if k == s.len() {
        if s.len() > 0 && is_ws(s.last()) {
            assert(false);
        }
        assert(trim_end(s) =~= s.subrange(0, k));
    } else {
        let t = s.drop_last();
        assert(is_ws(s.last()));
        lemma_trim_end_at(t, k);
        assert(t.subrange(0, k) =~= s.subrange(0, k));
    }
}

/// Some character of `s` is not whitespace.
pub open spec fn has_visible(s: Seq<char>) -> bool {
    exists|i: int| 0 <= i < s.len() && !is_ws(s[i])
}

/// `needle` occurs somewhere in `haystack` as one contiguous run.
pub open spec fn contains_seq(haystack: Seq<char>, needle: Seq<char>) -> bool {
    exists|k: int|
        0 <= k && k + needle.len() <= haystack.len() && #[trigger] haystack.subrange(
            k,
            k + needle.len(),
        ) == needle
}

/// What removing leading whitespace leaves: the suffix after a whitespace
/// prefix, starting (if anything is left) with a non-whitespace character.
pub proof fn lemma_trim_start_props(s: Seq<char>)
    ensures
        trim_start(s).len() <= s.len(),
        trim_start(s) == s.subrange(s.len() - trim_start(s).len(), s.len() as int),
        forall|j: int| 0 <= j < s.len() - trim_start(s).len() ==> is_ws(s[j]),
        trim_start(s).len() > 0 ==> !is_ws(trim_start(s)[0]),
    decreases s.len(),
{
    if s.len() > 0 && is_ws(s[0]) {
        let t = s.drop_first();
        lemma_trim_start_props(t);
        assert(t.subrange(t.len() - trim_start(t).len(), t.len() as int) =~= s.subrange(
            s.len() - trim_start(s).len(),
            s.len() as int,
        ));
        assert forall|j: int| 0 <= j < s.len() - trim_start(s).len() implies is_ws(s[j]) by {
            if j > 0 {
                assert(is_ws(t[j - 1]));
            }
        }
    } else {
        assert(trim_start(s) =~= s.subrange(s.len() - trim_start(s).len(), s.len() as int));
    }
}

/// What removing trailing whitespace leaves: the prefix before a whitespace
/// suffix, ending (if anything is left) with a non-whitespace character.
pub proof fn lemma_trim_end_props(s: Seq<char>)
    ensures
        trim_end(s).len() <= s.len(),
        trim_end(s) == s.subrange(0, trim_end(s).len() as int),
        forall|j: int| trim_end(s).len() <= j < s.len() ==> is_ws(s[j]),
        trim_end(s).len() > 0 ==> !is_ws(trim_end(s).last()),
    decreases s.len(),
{
    if s.len() > 0 && is_ws(s.last()) {
        let t = s.drop_last();
        lemma_trim_end_props(t);
        assert(t.subrange(0, trim_end(t).len() as int) =~= s.subrange(
            0,
            trim_end(s).len() as int,
        ));
        assert forall|j: int| trim_end(s).len() <= j < s.len() implies is_ws(s[j]) by {
            if j < s.len() - 1 {
                assert(is_ws(t[j]));
            }
        }
    } else {
        assert(trim_end(s) =~= s.subrange(0, trim_end(s).len() as int));
    }
}

/// Trimming keeps exactly one contiguous inner piece of `s`: everything
/// before it and after it is whitespace, and where the piece is not empty,
/// neither of its end characters is whitespace.
pub proof fn lemma_trim_shape(s: Seq<char>)
    ensures
        ({
            let p = s.len() - trim_start(s).len();
            let q = p + spec_trim(s).len();
            &&& 0 <= p <= q <= s.len()
            &&& spec_trim(s) == s.subrange(p, q)
            &&& forall|j: int| 0 <= j < p ==> is_ws(s[j])
            &&& forall|j: int| q <= j < s.len() ==> is_ws(s[j])
            &&& spec_trim(s).len() > 0 ==> (!is_ws(s[p]) && !is_ws(s[q - 1]))
        }),
{
    let ts = trim_start(s);
    let p = s.len() - ts.len();
    let r = spec_trim(s);
    let q = p + r.len();
    lemma_trim_start_props(s);
    lemma_trim_end_props(ts);
    assert(ts.subrange(0, r.len() as int) =~= s.subrange(p as int, q as int));
    assert forall|j: int| q <= j < s.len() implies is_ws(s[j]) by {
        assert(ts[j - p] == s[j]);
    }
    if r.len() > 0 {
        assert(s[p as int] == ts[0]);
        assert(s[q - 1] == ts[r.len() - 1]);
        assert(ts[r.len() - 1] == r.last());
    }
}

/// The trim of a piece of a string survives, as one contiguous run, in the
/// trim of the whole, as long as the piece has a visible character.
pub proof fn lemma_trim_contains(x: Seq<char>, d: Seq<char>, y: Seq<char>)
    requires
        has_visible(d),
    ensures
        contains_seq(spec_trim(x + d + y), spec_trim(d)),
{
    let a = x + d + y;
    lemma_trim_shape(a);
    lemma_trim_shape(d);
    let p = a.len() - trim_start(a).len();
    let q = p + spec_trim(a).len();
    let pd = d.len() - trim_start(d).len();
    let qd = pd + spec_trim(d).len();
    if spec_trim(d).len() == 0 {
        let i = choose|i: int| 0 <= i < d.len() && !is_ws(d[i]);
        assert(is_ws(d[i]));
    }
    assert(forall|j: int| 0 <= j < d.len() ==> a[x.len() + j] == d[j]);
    assert(!is_ws(a[x.len() + pd]));
    assert(p <= x.len() + pd);
    assert(!is_ws(a[x.len() + qd - 1]));
    assert(x.len() + qd <= q);
    let k = x.len() + pd - p;
    assert(spec_trim(a).subrange(k, k + spec_trim(d).len()) =~= spec_trim(d)) by {
        assert forall|m: int| 0 <= m < spec_trim(d).len() implies spec_trim(a).subrange(
            k,
            k + spec_trim(d).len(),
        )[m] == spec_trim(d)[m] by {
            assert(spec_trim(a)[k + m] == a[p + k + m]);
            assert(a[x.len() + pd + m] == d[pd + m]);
            assert(spec_trim(d)[m] == d[pd + m]);
        }
    }
    assert(contains_seq(spec_trim(a), spec_trim(d)));
}

/// Removing leading whitespace from all-whitespace text leaves nothing.
pub proof fn lemma_all_ws_trim_start(s: Seq<char>)
    requires
        all_ws(s),
    ensures
        trim_start(s) == Seq::<char>::empty(),
    decreases s.len(),
{
    if s.len() > 0 {
        lemma_all_ws_trim_start(s.drop_first());
    } else {
        assert(s =~= Seq::<char>::empty());
    }
}

/// A whitespace-only suffix changes nothing about trailing-whitespace removal.
pub proof fn lemma_trim_end_concat_ws(s: Seq<char>, t: Seq<char>)
    requires
        all_ws(t),
    ensures
        trim_end(s + t) == trim_end(s),
    decreases t.len(),
{
    if t.len() == 0 {
        assert(s + t =~= s);
    } else {
        assert(is_ws(t.last()));
        assert((s + t).last() == t.last());
        assert((s + t).drop_last() =~= s + t.drop_last());
        lemma_trim_end_concat_ws(s, t.drop_last());
    }
}

/// How leading-whitespace removal distributes over concatenation.
pub proof fn lemma_trim_start_concat(s: Seq<char>, t: Seq<char>)
    ensures
        trim_start(s + t) == (if all_ws(s) {
            trim_start(t)
        } else {
            trim_start(s) + t
        }),
    decreases s.len(),
{
    if s.len() == 0 {
        assert(s + t =~= t);
    } else if is_ws(s[0]) {
        assert((s + t)[0] == s[0]);
        assert((s + t).drop_first() =~= s.drop_first() + t);
        lemma_trim_start_concat(s.drop_first(), t);
        if all_ws(s.drop_first()) {
            assert forall|i: int| 0 <= i < s.len() implies is_ws(s[i]) by {
                if i > 0 {
                    assert(is_ws(s.drop_first()[i - 1]));
                }
            }
        } else {
            let i = choose|i: int| 0 <= i < s.drop_first().len() && !is_ws(s.drop_first()[i]);
            assert(!is_ws(s[i + 1]));
            assert(!all_ws(s));
        }
    } else {
        assert(!all_ws(s));
        assert((s + t)[0] == s[0]);
    }
}

/// A whitespace-only suffix changes nothing about trimming.
pub proof fn lemma_trim_concat_ws(s: Seq<char>, t: Seq<char>)
    requires
        all_ws(t),
    ensures
        spec_trim(s + t) == spec_trim(s),
{
    lemma_trim_start_concat(s, t);
    if all_ws(s) {
        lemma_all_ws_trim_start(s);
        lemma_all_ws_trim_start(t);
    } else {
        lemma_trim_end_concat_ws(trim_start(s), t);
    }
}

/// Trimming already-trimmed text changes nothing.
pub proof fn lemma_trim_idempotent(s: Seq<char>)
    ensures
        spec_trim(spec_trim(s)) == spec_trim(s),
{
    let ts = trim_start(s);
    let r = spec_trim(s);
    lemma_trim_start_props(s);
    lemma_trim_end_props(ts);
    if r.len() == 0 {
        assert(r =~= Seq::<char>::empty());
        assert(trim_start(r) == r);
        assert(trim_end(r) == r);
    } else {
        assert(r[0] == ts[0]);
        assert(!is_ws(r[0]));
        assert(trim_start(r) == r);
        assert(trim_end(r) == r);
    }
}

/// Decides whether a character is whitespace.
pub fn is_ws_char(c: char) -> (r: bool)
    ensures
        r == is_ws(c),
{
    c == ' ' || c == '\t' || c == '\r' || c == '\n'
}

/// Removes the leading and trailing whitespace of `s`.
pub fn trim_str(s: &str) -> (r: String)
    ensures
        r@ == spec_trim(s@),
{
    let n = s.unicode_len();
    let mut start: usize = 0;
    loop
        invariant
            start <= n,
            n == s@.len(),
            forall|j: int| 0 <= j < start ==> is_ws(s@[j]),
        ensures
            start <= n,
            forall|j: int| 0 <= j < start ==> is_ws(s@[j]),
            start == n || !is_ws(s@[start as int]),
        decreases n - start,
    {
        if start >= n {
            break ;
        }
        if !is_ws_char(s.get_char(start)) {
            break ;
        }
        start = start + 1;
    }
    let mut end: usize = n;
    loop
        invariant
            start <= end <= n,
            n == s@.len(),
            forall|j: int| end <= j < n ==> is_ws(s@[j]),
        ensures
            start <= end <= n,
            forall|j: int| end <= j < n ==> is_ws(s@[j]),
            end == start || !is_ws(s@[end - 1]),
        decreases end,
    {
        if end <= start {
            break ;
        }
        if !is_ws_char(s.get_char(end - 1)) {
            break ;
        }
        end = end - 1;
    }
    proof {
        lemma_trim_start_at(s@, start as int);
        let t = s@.subrange(start as int, n as int);
        assert(forall|j: int| end - start <= j < t.len() ==> is_ws(t[j]));
        lemma_trim_end_at(t, end - start);
        assert(t.subrange(0, end - start) =~= s@.subrange(start as int, end as int));
    }
    s.substring_char(start, end).to_owned()
}

} // verus!
