use vstd::prelude::*;
use vstd::string::StringSliceAdditionalSpecFns;
use vstd::utf8::*;

verus! {

broadcast use {vstd::string::group_string_axioms, vstd::utf8::group_utf8_lib};

/// The bytes of `<body`.
pub open spec fn body_open_tag() -> Seq<u8> {
    seq![0x3cu8, 0x62u8, 0x6fu8, 0x64u8, 0x79u8]
}

/// The bytes of `</body>`.
pub open spec fn body_close_tag() -> Seq<u8> {
    seq![0x3cu8, 0x2fu8, 0x62u8, 0x6fu8, 0x64u8, 0x79u8, 0x3eu8]
}

/// The byte of `>`.
pub open spec fn tag_end() -> Seq<u8> {
    seq![0x3eu8]
}

/// `pat` occurs in `b` at byte index `i`.
pub open spec fn occurs_at(b: Seq<u8>, pat: Seq<u8>, i: int) -> bool {
    0 <= i && i + pat.len() <= b.len() && b.subrange(i, i + pat.len()) == pat
}

/// The index of the first occurrence of `pat` in `b` at or after `from`.
pub open spec fn find_from(b: Seq<u8>, pat: Seq<u8>, from: int) -> Option<int>
    decreases b.len() + 1 - from,
{
    if from < 0 || from + pat.len() > b.len() {
        None
    } else if occurs_at(b, pat, from) {
        Some(from)
    } else {
        find_from(b, pat, from + 1)
    }
}

/// The byte range of a page's body content: from just after the `>` that
/// closes the first `<body` to the first `</body>`, when both exist and the
/// content does not start after the `</body>`. The range is empty for an
/// empty body.
pub open spec fn body_range(b: Seq<u8>) -> Option<(int, int)> {
    match (find_from(b, body_open_tag(), 0), find_from(b, body_close_tag(), 0)) {
        (Some(i), Some(e)) => match find_from(b, tag_end(), i) {
            Some(j) => if j + 1 <= e {
                Some((j + 1, e))
            } else {
                None
            },
            None => None,
        },
        _ => None,
    }
}

/// A first occurrence is an occurrence, at or after the place the search
/// starts, with none between that place and it; and none is found only when
/// none occurs from that place on.
proof fn lemma_find_from_occurs(b: Seq<u8>, pat: Seq<u8>, from: int)
    ensures
        find_from(b, pat, from) matches Some(j) ==> from <= j && occurs_at(b, pat, j) && (
        forall|k: int| from <= k < j ==> !occurs_at(b, pat, k)),
        from >= 0 && find_from(b, pat, from) is None ==> forall|k: int|
            from <= k ==> !occurs_at(b, pat, k),
    decreases b.len() + 1 - from,
{
    if from >= 0 && from + pat.len() <= b.len() && !occurs_at(b, pat, from) {
        lemma_find_from_occurs(b, pat, from + 1);
    }
}

/// The bytes of a page's body content, or of the whole page when it has no
/// body range.
pub open spec fn page_body(b: Seq<u8>) -> Seq<u8> {
    match body_range(b) {
        Some((s, e)) => b.subrange(s, e),
        None => b,
    }
}

/// The body of a page is a contiguous run of the page's bytes, and the
/// whole page when the page has no body range.
pub proof fn lemma_body_within_page(b: Seq<u8>)
    ensures
        exists|s: int, e: int| 0 <= s <= e <= b.len() && page_body(b) == b.subrange(s, e),
        body_range(b) is None ==> page_body(b) == b,
{
    match body_range(b) {
        Some((s, e)) => {
            let i = find_from(b, body_open_tag(), 0).unwrap();
            lemma_find_from_occurs(b, body_open_tag(), 0);
            lemma_find_from_occurs(b, body_close_tag(), 0);
            lemma_find_from_occurs(b, tag_end(), i);
            assert(0 <= s <= e <= b.len() && page_body(b) == b.subrange(s, e));
        },
        None => {
            assert(b.subrange(0, b.len() as int) =~= b);
            assert(0 <= 0 <= b.len() <= b.len() && page_body(b) == b.subrange(0, b.len() as int));
        },
    }
}

/// `pat` occurs in `b` at `i`, and nowhere before.
pub open spec fn first_occurrence(b: Seq<u8>, pat: Seq<u8>, i: int) -> bool {
    occurs_at(b, pat, i) && forall|k: int| 0 <= k < i ==> !occurs_at(b, pat, k)
}

/// What the body range of a page is. When there is one, it ends at the first
/// `</body>`, and it starts just after a `>` that is the first `>` at or after
/// the first `<body`. When there is none, the page lacks a `<body` or a
/// `</body>`, or no `>` lies between the first `<body` and the first
/// `</body>`.
pub proof fn lemma_body_range_bounds(b: Seq<u8>)
    ensures
        match body_range(b) {
            Some((s, e)) => {
                &&& 1 <= s <= e <= b.len()
                &&& first_occurrence(b, body_close_tag(), e)
                &&& b[s - 1] == 0x3eu8
                &&& exists|i: int|
                    #![trigger first_occurrence(b, body_open_tag(), i)]
                    first_occurrence(b, body_open_tag(), i) && i < s && forall|m: int|
                        i <= m < s - 1 ==> b[m] != 0x3eu8
            },
            None => forall|i: int, e: int|
                #![trigger first_occurrence(b, body_open_tag(), i), first_occurrence(b, body_close_tag(), e)]
                first_occurrence(b, body_open_tag(), i) && first_occurrence(
                    b,
                    body_close_tag(),
                    e,
                ) ==> forall|m: int| i <= m < e ==> b[m] != 0x3eu8,
        },
{
    lemma_find_from_occurs(b, body_open_tag(), 0);
    lemma_find_from_occurs(b, body_close_tag(), 0);
    assert forall|m: int| 0 <= m < b.len() && b[m] == 0x3eu8 implies occurs_at(b, tag_end(), m) by {
        assert(b.subrange(m, m + 1) =~= tag_end());
    }
    match (find_from(b, body_open_tag(), 0), find_from(b, body_close_tag(), 0)) {
        (Some(i), Some(e)) => {
            lemma_find_from_occurs(b, tag_end(), i);
            assert(b.subrange(e, e + 7)[0] == b[e]);
            match find_from(b, tag_end(), i) {
                Some(j) => {
                    assert(b.subrange(j, j + 1)[0] == b[j]);
                    if j + 1 <= e {
                        assert(first_occurrence(b, body_open_tag(), i));
                    } else {
                        assert forall|i2: int, e2: int|
                            first_occurrence(b, body_open_tag(), i2) && first_occurrence(
                                b,
                                body_close_tag(),
                                e2,
                            ) implies forall|m: int| i2 <= m < e2 ==> b[m] != 0x3eu8 by {
                            assert(i2 == i);
                            assert(e2 == e);
                        }
                    }
                },
                None => {
                    assert forall|i2: int, e2: int|
                        first_occurrence(b, body_open_tag(), i2) && first_occurrence(
                            b,
                            body_close_tag(),
                            e2,
                        ) implies forall|m: int| i2 <= m < e2 ==> b[m] != 0x3eu8 by {
                        assert(i2 == i);
                        assert(e2 == e);
                    }
                },
            }
        },
        _ => {},
    }
}

/// Decides whether `pat` occurs in `b` at byte index `i`.
fn occurs_here(b: &[u8], pat: &[u8], i: usize) -> (r: bool)
    requires
        i + pat@.len() <= b@.len(),
    ensures
        r == occurs_at(b@, pat@, i as int),
{
    let blen = b.len();
    let mut k: usize = 0;
    while k < pat.len()
        invariant
            k <= pat@.len(),
            i + pat@.len() <= b@.len(),
            blen == b@.len(),
            forall|m: int| 0 <= m < k ==> b@[i + m] == pat@[m],
        decreases pat@.len() - k,
    {
        if b[i + k] != pat[k] {
            assert(b@.subrange(i as int, i + pat@.len())[k as int] != pat@[k as int]);
            return false;
        }
        k = k + 1;
    }
    assert(b@.subrange(i as int, i + pat@.len()) =~= pat@);
    true
}

/// Finds the first occurrence of `pat` in `b` at or after `from`.
fn find_bytes(b: &[u8], pat: &[u8], from: usize) -> (r: Option<usize>)
    ensures
        match r {
            Some(i) => find_from(b@, pat@, from as int) == Some(i as int),
            None => find_from(b@, pat@, from as int) is None,
        },
{
    if pat.len() > b.len() {
        return None;
    }
    let last = b.len() - pat.len();
    if from > last {
        return None;
    }
    let mut i = from;
    while i < last
        invariant
            last + pat@.len() == b@.len(),
            from <= i <= last,
            find_from(b@, pat@, from as int) == find_from(b@, pat@, i as int),
        decreases last - i,
    {
        if occurs_here(b, pat, i) {
            return Some(i);
        }
        i = i + 1;
    }
    if occurs_here(b, pat, last) {
        Some(last)
    } else {
        assert(find_from(b@, pat@, last + 1) is None);
        None
    }
}

/// Cuts out the part of an HTML page between `<body…>` and `</body>`.
///
/// An empty body gives the empty string. When the page has no `<body` tag
/// closed by a `>`, no `</body>`, or the `>` lies after the `</body>`, the
/// page comes back whole.
pub fn extract_body(html: &str) -> (body: &str)
    ensures
        body.spec_bytes() == page_body(html.spec_bytes()),
        body_range(html.spec_bytes()) is None ==> body == html,
        body_range(html.spec_bytes()) matches Some((s, e)) ==> body.spec_bytes()
            == html.spec_bytes().subrange(s, e),
{
    let b = html.as_bytes();
    let open: [u8; 5] = [0x3c, 0x62, 0x6f, 0x64, 0x79];
    let close: [u8; 7] = [0x3c, 0x2f, 0x62, 0x6f, 0x64, 0x79, 0x3e];
    let gt: [u8; 1] = [0x3e];
    assert(open@ =~= body_open_tag());
    assert(close@ =~= body_close_tag());
    assert(gt@ =~= tag_end());
    let ghost bytes = html.spec_bytes();
    let opened = find_bytes(b, open.as_slice(), 0);
    let closed = find_bytes(b, close.as_slice(), 0);
    match (opened, closed) {
        (Some(i), Some(e)) => match find_bytes(b, gt.as_slice(), i) {
            Some(j) => {
                if j < e {
                    proof {
                        lemma_find_from_occurs(bytes, tag_end(), i as int);
                        lemma_find_from_occurs(bytes, body_close_tag(), 0);
                        assert(occurs_at(bytes, tag_end(), j as int));
                        assert(bytes.subrange(j as int, j + 1)[0] == 0x3eu8);
                        assert(bytes[j as int] == 0x3eu8);
                        assert(occurs_at(bytes, body_close_tag(), e as int));
                        assert(bytes.subrange(e as int, e + 7)[0] == 0x3cu8);
                        assert(bytes[e as int] == 0x3cu8);
                        encode_utf8_valid_utf8(html@);
                        is_char_boundary_iff_not_is_continuation_byte(bytes, j as int);
                        assert(is_char_boundary(bytes, j as int));
                    }
                    let (_, from_gt) = html.split_at(j);
                    let ghost rest1 = from_gt.spec_bytes();
                    proof {
                        assert(rest1 =~= bytes.subrange(j as int, bytes.len() as int));
                        assert(rest1[0] == 0x3eu8);
                        assert(valid_utf8(rest1));
                        assert(length_of_first_scalar(rest1) == 1);
                        assert(is_char_boundary(pop_first_scalar(rest1), 0));
                        assert(is_char_boundary(rest1, 1));
                    }
                    let (_, content) = from_gt.split_at(1);
                    let ghost rest2 = content.spec_bytes();
                    let cut = e - (j + 1);
                    proof {
                        assert(rest2 =~= bytes.subrange(j + 1, bytes.len() as int));
                        assert(rest2[cut as int] == bytes[e as int]);
                        encode_utf8_valid_utf8(content@);
                        is_char_boundary_iff_not_is_continuation_byte(rest2, cut as int);
                        assert(is_char_boundary(rest2, cut as int));
                    }
                    let (inner, _) = content.split_at(cut);
                    proof {
                        assert(inner.spec_bytes() =~= bytes.subrange(j + 1, e as int));
                    }
                    inner
                } else {
                    html
                }
            },
            None => html,
        },
        _ => html,
    }
}

} // verus!
