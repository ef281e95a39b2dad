//! Request preparation: raw `Key: Value` header strings are split once on
//! the first colon with both sides trimmed, malformed entries (no colon)
//! are skipped, an explicitly supplied `Content-Type` is tracked, and the
//! HTTP method string is normalized to an upper-case token, falling back
//! to `GET` when it is no valid token at all.

use vstd::prelude::*;
use crate::text::{
    bytes_eq, is_ascii_ws, lower_bytes, to_ascii_lower, to_ascii_upper, trim_ascii, trim_bytes,
    upper_bytes,
};

verus! {

/// Position `i` holds the first colon of `h`.
pub open spec fn is_first_colon(h: Seq<u8>, i: int) -> bool {
    &&& 0 <= i < h.len()
    &&& h[i] == 58
    &&& forall|j: int| 0 <= j < i ==> h[j] != 58
}

/// `h` holds a colon somewhere.
pub open spec fn has_colon(h: Seq<u8>) -> bool {
    exists|i: int| is_first_colon(h, i)
}

/// The key of a well-formed header line: everything before the first
/// colon, trimmed.
pub open spec fn header_key(h: Seq<u8>, i: int) -> Seq<u8> {
    trim_bytes(h.subrange(0, i))
}

/// The value of a well-formed header line: everything after the first
/// colon, trimmed.
pub open spec fn header_val(h: Seq<u8>, i: int) -> Seq<u8> {
    trim_bytes(h.subrange(i + 1, h.len() as int))
}

/// Finds the first colon of `h`, if any.
fn find_colon(h: &Vec<u8>) -> (r: Option<usize>)
    ensures
        match r {
            Some(i) => is_first_colon(h@, i as int),
            None => !has_colon(h@),
        },
{
    let mut i: usize = 0;
    while i < h.len()
        invariant
            i <= h@.len(),
            forall|j: int| 0 <= j < i ==> h@[j] != 58,
        decreases h@.len() - i,
    {
        if h[i] == 58 {
            return Some(i);
        }
        i = i + 1;
    }
    None
}

/// Splits one raw header line on its first colon and trims both sides.
/// A line without a colon is malformed and yields nothing.
pub fn parse_header(h: &Vec<u8>) -> (r: Option<(Vec<u8>, Vec<u8>)>)
    ensures
        match r {
            Some(kv) => exists|i: int|
                #[trigger] is_first_colon(h@, i) && kv.0@ == header_key(h@, i) && kv.1@
                    == header_val(h@, i),
            None => !has_colon(h@),
        },
{
    match find_colon(h) {
        None => None,
        Some(i) => {
            let hlen = h.len();
            proof {
                assert(i < hlen);
            }
            let mut key: Vec<u8> = Vec::new();
            let mut j: usize = 0;
            while j < i
                invariant
                    j <= i <= h@.len(),
                    key@ =~= h@.subrange(0, j as int),
                decreases i - j,
            {
                let b = h[j];
                key.push(b);
                j = j + 1;
                proof {
                    assert(key@ =~= h@.subrange(0, j as int));
                }
            }
            let mut val: Vec<u8> = Vec::new();
            let mut j2: usize = i + 1;
            while j2 < h.len()
                invariant
                    i + 1 <= j2 <= h@.len(),
                    val@ =~= h@.subrange(i + 1, j2 as int),
                decreases h@.len() - j2,
            {
                let b = h[j2];
                val.push(b);
                j2 = j2 + 1;
                proof {
                    assert(val@ =~= h@.subrange(i + 1, j2 as int));
                }
            }
            let k = trim_ascii(&key);
            let v = trim_ascii(&val);
            proof {
                assert(key@ =~= h@.subrange(0, i as int));
                assert(val@ =~= h@.subrange(i + 1, h@.len() as int));
            }
            Some((k, v))
        },
    }
}

/// The lower-case spelling of the content-type header name.
pub open spec fn content_type_lower() -> Seq<u8> {
    seq![99u8, 111u8, 110u8, 116u8, 101u8, 110u8, 116u8, 45u8, 116u8, 121u8, 112u8, 101u8]
}

/// Builds the lower-case content-type header name.
fn content_type_lower_vec() -> (r: Vec<u8>)
    ensures
        r@ == content_type_lower(),
{
    let mut r: Vec<u8> = Vec::new();
    r.push(99);
    r.push(111);
    r.push(110);
    r.push(116);
    r.push(101);
    r.push(110);
    r.push(116);
    r.push(45);
    r.push(116);
    r.push(121);
    r.push(112);
    r.push(101);
    proof {
        assert(r@ =~= content_type_lower());
    }
    r
}

/// Whether `k`, compared without regard to ASCII case, is the
/// content-type header name.
pub fn is_content_type_key(k: &Vec<u8>) -> (r: bool)
    ensures
        r == (lower_bytes(k@) == content_type_lower()),
{
    let low = to_ascii_lower(k);
    let ct = content_type_lower_vec();
    bytes_eq(&low, &ct)
}

/// A header line has at most one first colon.
pub proof fn lemma_first_colon_unique(h: Seq<u8>, i: int, j: int)
    requires
        is_first_colon(h, i),
        is_first_colon(h, j),
    ensures
        i == j,
{
    if i < j {
        assert(h[i] != 58);
    }
    if j < i {
        assert(h[j] != 58);
    }
}

/// The views of a sequence of byte vectors.
pub open spec fn views_of(hs: Seq<Vec<u8>>) -> Seq<Seq<u8>> {
    hs.map_values(|v: Vec<u8>| v@)
}

/// What one raw header line contributes: its trimmed key/value pair when
/// it holds a colon, nothing otherwise.
pub open spec fn line_entries(h: Seq<u8>) -> Seq<(Seq<u8>, Seq<u8>)> {
    if has_colon(h) {
        let i = choose|i: int| is_first_colon(h, i);
        seq![(header_key(h, i), header_val(h, i))]
    } else {
        Seq::empty()
    }
}

/// The parsed key/value pairs of a list of raw header lines, in order,
/// with malformed lines silently skipped.
pub open spec fn parsed_headers(hs: Seq<Seq<u8>>) -> Seq<(Seq<u8>, Seq<u8>)>
    decreases hs.len(),
{
    if hs.len() == 0 {
        Seq::empty()
    } else {
        parsed_headers(hs.drop_last()) + line_entries(hs.last())
    }
}

/// Whether some parsed entry names the content-type header, in any ASCII
/// case.
pub open spec fn has_content_type_entry(es: Seq<(Seq<u8>, Seq<u8>)>) -> bool {
    exists|i: int|
        0 <= i < es.len() && lower_bytes(#[trigger] es[i].0) == content_type_lower()
}

/// Appending an entry adds the content-type header exactly when the new
/// entry names it or an older one already did.
pub proof fn lemma_has_content_type_push(es: Seq<(Seq<u8>, Seq<u8>)>, e: (Seq<u8>, Seq<u8>))
    ensures
        has_content_type_entry(es.push(e)) == (has_content_type_entry(es) || lower_bytes(e.0)
            == content_type_lower()),
{
    if has_content_type_entry(es) {
        let i = choose|i: int|
            0 <= i < es.len() && lower_bytes(#[trigger] es[i].0) == content_type_lower();
        assert(es.push(e)[i] == es[i]);
        assert(has_content_type_entry(es.push(e)));
    }
    if lower_bytes(e.0) == content_type_lower() {
        assert(es.push(e)[es.len() as int] == e);
        assert(has_content_type_entry(es.push(e)));
    }
    if has_content_type_entry(es.push(e)) {
        let i = choose|i: int|
            0 <= i < es.push(e).len() && lower_bytes(#[trigger] es.push(e)[i].0)
                == content_type_lower();
        if i < es.len() {
            assert(es[i] == es.push(e)[i]);
            assert(has_content_type_entry(es));
        } else {
            assert(es.push(e)[i] == e);
        }
    }
}

/// The parsed headers the request will carry, and whether the caller
/// supplied an explicit content-type among them.
pub struct HeaderPlan {
    /// Parsed `(key, value)` pairs, in the order given.
    pub entries: Vec<(Vec<u8>, Vec<u8>)>,
    /// Whether some entry names the content-type header.
    pub has_content_type: bool,
}

/// The views of a list of parsed entries.
pub open spec fn entries_view(es: Seq<(Vec<u8>, Vec<u8>)>) -> Seq<(Seq<u8>, Seq<u8>)> {
    es.map_values(|p: (Vec<u8>, Vec<u8>)| (p.0@, p.1@))
}

/// Parses every raw header line, skipping malformed ones, and notes
/// whether an explicit content-type was supplied.
pub fn prepare_headers(headers: &Vec<Vec<u8>>) -> (r: HeaderPlan)
    ensures
        entries_view(r.entries@) == parsed_headers(views_of(headers@)),
        r.has_content_type == has_content_type_entry(parsed_headers(views_of(headers@))),
{
    let mut entries: Vec<(Vec<u8>, Vec<u8>)> = Vec::new();
    let mut has_ct: bool = false;
    let mut idx: usize = 0;
    while idx < headers.len()
        invariant
            idx <= headers@.len(),
            entries_view(entries@) =~= parsed_headers(views_of(headers@.subrange(0, idx as int))),
            has_ct == has_content_type_entry(
                parsed_headers(views_of(headers@.subrange(0, idx as int))),
            ),
        decreases headers@.len() - idx,
    {
        let ghost pre = views_of(headers@.subrange(0, idx as int));
        let ghost post = views_of(headers@.subrange(0, idx + 1));
        proof {
            assert(post.drop_last() =~= pre);
            assert(post.last() == headers@[idx as int]@);
        }
        let line = &headers[idx];
        match parse_header(line) {
            Some(kv) => {
                let is_ct = is_content_type_key(&kv.0);
                proof {
                    let i = choose|i: int|
                        #[trigger] is_first_colon(line@, i) && kv.0@ == header_key(line@, i)
                            && kv.1@ == header_val(line@, i);
                    assert(has_colon(line@));
                    let i2 = choose|i2: int| is_first_colon(line@, i2);
                    lemma_first_colon_unique(line@, i, i2);
                    assert(line_entries(line@) =~= seq![(kv.0@, kv.1@)]);
                    assert(parsed_headers(post) =~= parsed_headers(pre).push((kv.0@, kv.1@)));
                    lemma_has_content_type_push(parsed_headers(pre), (kv.0@, kv.1@));
                    assert(entries_view(entries@.push(kv)) =~= entries_view(entries@).push(
                        (kv.0@, kv.1@),
                    ));
                    assert(entries_view(entries@).push((kv.0@, kv.1@)) =~= entries_view(entries@)
                        + seq![(kv.0@, kv.1@)]);
                }
                if is_ct {
                    has_ct = true;
                }
                entries.push(kv);
            },
            None => {
                proof {
                    assert(line_entries(line@) =~= Seq::<(Seq<u8>, Seq<u8>)>::empty());
                    assert(parsed_headers(post) =~= parsed_headers(pre));
                }
            },
        }
        idx = idx + 1;
    }
    proof {
        assert(headers@.subrange(0, headers@.len() as int) =~= headers@);
    }
    HeaderPlan { entries, has_content_type: has_ct }
}

/// The canonical spelling of the content-type header name, as the
/// request builder sends it.
pub open spec fn content_type_name() -> Seq<u8> {
    seq![67u8, 111u8, 110u8, 116u8, 101u8, 110u8, 116u8, 45u8, 84u8, 121u8, 112u8, 101u8]
}

/// The JSON media type, the default for templated bodies.
pub open spec fn json_content_type() -> Seq<u8> {
    seq![
        97u8, 112u8, 112u8, 108u8, 105u8, 99u8, 97u8, 116u8, 105u8, 111u8, 110u8, 47u8, 106u8,
        115u8, 111u8, 110u8,
    ]
}

/// Builds the canonical content-type header name.
fn content_type_name_vec() -> (r: Vec<u8>)
    ensures
        r@ == content_type_name(),
{
    let mut r: Vec<u8> = Vec::new();
    r.push(67);
    r.push(111);
    r.push(110);
    r.push(116);
    r.push(101);
    r.push(110);
    r.push(116);
    r.push(45);
    r.push(84);
    r.push(121);
    r.push(112);
    r.push(101);
    proof {
        assert(r@ =~= content_type_name());
    }
    r
}

/// Builds the JSON media type value.
fn json_content_type_vec() -> (r: Vec<u8>)
    ensures
        r@ == json_content_type(),
{
    let mut r: Vec<u8> = Vec::new();
    r.push(97);
    r.push(112);
    r.push(112);
    r.push(108);
    r.push(105);
    r.push(99);
    r.push(97);
    r.push(116);
    r.push(105);
    r.push(111);
    r.push(110);
    r.push(47);
    r.push(106);
    r.push(115);
    r.push(111);
    r.push(110);
    proof {
        assert(r@ =~= json_content_type());
    }
    r
}

/// Parses the raw header lines and, when a body will be attached and no
/// explicit content-type was supplied, appends the JSON default.
pub fn build_request_headers(headers: &Vec<Vec<u8>>, has_body: bool) -> (r: HeaderPlan)
    ensures
        r.has_content_type == has_content_type_entry(parsed_headers(views_of(headers@))),
        entries_view(r.entries@) == if has_body && !has_content_type_entry(
            parsed_headers(views_of(headers@)),
        ) {
            parsed_headers(views_of(headers@)) + seq![(content_type_name(), json_content_type())]
        } else {
            parsed_headers(views_of(headers@))
        },
{
    let mut plan = prepare_headers(headers);
    if has_body && !plan.has_content_type {
        let name = content_type_name_vec();
        let value = json_content_type_vec();
        proof {
            assert(entries_view(plan.entries@.push((name, value))) =~= entries_view(plan.entries@)
                + seq![(content_type_name(), json_content_type())]);
        }
        plan.entries.push((name, value));
    }
    plan
}

/// A byte HTTP method tokens are made of: the characters RFC 9110 allows
/// in a token.
pub open spec fn is_token_byte(b: u8) -> bool {
    ||| b == 33
    ||| 35 <= b <= 39
    ||| b == 42
    ||| b == 43
    ||| b == 45
    ||| b == 46
    ||| 48 <= b <= 57
    ||| 65 <= b <= 90
    ||| 94 <= b <= 96
    ||| 97 <= b <= 122
    ||| b == 124
    ||| b == 126
}

/// A non-empty string of token bytes: something an HTTP method can be.
pub open spec fn valid_method_token(s: Seq<u8>) -> bool {
    s.len() > 0 && forall|j: int| 0 <= j < s.len() ==> is_token_byte(#[trigger] s[j])
}

/// The default method.
pub open spec fn get_method() -> Seq<u8> {
    seq![71u8, 69u8, 84u8]
}

/// Builds the default method.
fn get_method_vec() -> (r: Vec<u8>)
    ensures
        r@ == get_method(),
{
    let mut r: Vec<u8> = Vec::new();
    r.push(71);
    r.push(69);
    r.push(84);
    proof {
        assert(r@ =~= get_method());
    }
    r
}

/// Normalizes the configured method: folds it to upper case and, where
/// the result is no valid HTTP token, falls back to `GET`.
pub fn normalize_method(m: &Vec<u8>) -> (r: Vec<u8>)
    ensures
        valid_method_token(upper_bytes(m@)) ==> r@ == upper_bytes(m@),
        !valid_method_token(upper_bytes(m@)) ==> r@ == get_method(),
{
    let up = to_ascii_upper(m);
    if up.len() == 0 {
        return get_method_vec();
    }
    let mut j: usize = 0;
    while j < up.len()
        invariant
            j <= up@.len(),
            up@ == upper_bytes(m@),
            forall|t: int| 0 <= t < j ==> is_token_byte(#[trigger] up@[t]),
        decreases up@.len() - j,
    {
        let b = up[j];
        let good = b == 33 || (35 <= b && b <= 39) || b == 42 || b == 43 || b == 45 || b == 46
            || (48 <= b && b <= 57) || (65 <= b && b <= 90) || (94 <= b && b <= 96) || (97 <= b
            && b <= 122) || b == 124 || b == 126;
        if !good {
            proof {
                assert(!is_token_byte(up@[j as int]));
            }
            return get_method_vec();
        }
        j = j + 1;
    }
    up
}

} // verus!
