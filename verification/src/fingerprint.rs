//! Query fingerprints: a deterministic 16-character hexadecimal name for a
//! set of query parameters, the same for equivalent queries.
//!
//! The parameters are normalized (keywords lowercased and trimmed; tags and
//! categories lowercased and impacts uppercased, then each list sorted), written as a
//! compact JSON object, hashed with SHA-256, and the first eight bytes of the
//! digest are written in lowercase hexadecimal.
use vstd::prelude::*;
use vstd::string::StringExecFns;

use crate::text::{
    lowercase, sort_texts, sorted_texts, to_lowercase, to_uppercase, trim, trimmed, uppercase,
};
use crate::types::{texts, ParamsModel, RawQueryParams};

verus! {

// ---------------------------------------------------------------------------
// Outside functions
// ---------------------------------------------------------------------------
/// How one character is written inside a JSON string: `"` and `\` after a
/// backslash; backspace, tab, line feed, form feed and carriage return as
/// `\b`, `\t`, `\n`, `\f`, `\r`; other characters below U+0020 as
/// `\u00` and two lowercase hexadecimal digits; any other as it is.
pub open spec fn json_escape(c: char) -> Seq<char> {
    let n = c as int;
    if c == '"' {
        seq!['\\', '"']
    } else if c == '\\' {
        seq!['\\', '\\']
    } else if n == 8 {
        seq!['\\', 'b']
    } else if n == 9 {
        seq!['\\', 't']
    } else if n == 10 {
        seq!['\\', 'n']
    } else if n == 12 {
        seq!['\\', 'f']
    } else if n == 13 {
        seq!['\\', 'r']
    } else if n < 32 {
        seq!['\\', 'u', '0', '0', hex_digit(n / 16), hex_digit(n % 16)]
    } else {
        seq![c]
    }
}

/// The characters of a text, each escaped for a JSON string.
pub open spec fn json_escaped(s: Seq<char>) -> Seq<char>
    decreases s.len(),
{
    if s.len() == 0 {
        seq![]
    } else {
        json_escaped(s.drop_last()) + json_escape(s.last())
    }
}

/// The JSON text that `serde_json::to_string` writes for a string: the
/// escaped characters between double quotes.
pub open spec fn json_string(s: Seq<char>) -> Seq<char> {
    seq!['"'] + json_escaped(s) + seq!['"']
}

/// The SHA-256 digest of the UTF-8 encoding of a text.
pub uninterp spec fn sha256_utf8(text: Seq<char>) -> Seq<u8>;

/// Calls `serde_json::to_string` on a string: the quoted and escaped JSON
/// string, as [`json_string`] states it (the escape table of serde_json's
/// compact formatter).
///
/// Serializing a string writes into an in-memory buffer, which does not fail;
/// the empty text on the error path is never produced.
#[verifier::external_body]
pub fn to_json_string(s: &str) -> (r: String)
    ensures
        r@ == json_string(s@),
{
    serde_json::to_string(s).unwrap_or_default()
}

/// Calls `sha2::Sha256::digest` on the UTF-8 bytes of a text. The digest is
/// named [`sha256_utf8`] of the text; it has 32 bytes (the output size of
/// SHA-256 is fixed by its type).
#[verifier::external_body]
pub fn sha256_of_text(s: &str) -> (r: Vec<u8>)
    ensures
        r@ == sha256_utf8(s@),
        r@.len() == 32,
{
    <sha2::Sha256 as sha2::Digest>::digest(s.as_bytes()).to_vec()
}

// ---------------------------------------------------------------------------
// Normalization
// ---------------------------------------------------------------------------
/// Each text mapped through `f`.
pub open spec fn each(s: Seq<Seq<char>>, f: spec_fn(Seq<char>) -> Seq<char>) -> Seq<Seq<char>> {
    s.map_values(|t: Seq<char>| f(t))
}

/// The normalized form of query parameters: keywords lowercased then
/// trimmed; impacts uppercased then sorted; tags and protocol categories
/// lowercased then sorted.
pub open spec fn normalized(p: ParamsModel) -> ParamsModel {
    ParamsModel {
        keywords: trimmed(lowercase(p.keywords)),
        impact: sorted_texts(each(p.impact, |t: Seq<char>| uppercase(t))),
        tags: sorted_texts(each(p.tags, |t: Seq<char>| lowercase(t))),
        protocol_categories: sorted_texts(
            each(p.protocol_categories, |t: Seq<char>| lowercase(t)),
        ),
        min_quality: p.min_quality,
    }
}

/// Lowercases each text of a list.
fn lowercase_each(v: &Vec<String>) -> (r: Vec<String>)
    ensures
        texts(r) == each(texts(*v), |t: Seq<char>| lowercase(t)),
{
    let mut r: Vec<String> = Vec::new();
    let mut i: usize = 0;
    while i < v.len()
        invariant
            i <= v.len(),
            r@.len() == i,
            forall|k: int| 0 <= k < i ==> (#[trigger] r@[k])@ == lowercase(v@[k]@),
        decreases v.len() - i,
    {
        r.push(to_lowercase(v[i].as_str()));
        i = i + 1;
    }
    assert(texts(r) =~= each(texts(*v), |t: Seq<char>| lowercase(t)));
    r
}

/// Uppercases each text of a list.
fn uppercase_each(v: &Vec<String>) -> (r: Vec<String>)
    ensures
        texts(r) == each(texts(*v), |t: Seq<char>| uppercase(t)),
{
    let mut r: Vec<String> = Vec::new();
    let mut i: usize = 0;
    while i < v.len()
        invariant
            i <= v.len(),
            r@.len() == i,
            forall|k: int| 0 <= k < i ==> (#[trigger] r@[k])@ == uppercase(v@[k]@),
        decreases v.len() - i,
    {
        r.push(to_uppercase(v[i].as_str()));
        i = i + 1;
    }
    assert(texts(r) =~= each(texts(*v), |t: Seq<char>| uppercase(t)));
    r
}

/// Normalizes query parameters (see [`normalized`]).
pub fn normalize(params: &RawQueryParams) -> (r: RawQueryParams)
    ensures
        r@ == normalized(params@),
{
    let keywords = trim(to_lowercase(params.keywords.as_str()).as_str());
    let impact = sort_texts(&uppercase_each(&params.impact));
    let tags = sort_texts(&lowercase_each(&params.tags));
    let protocol_categories = sort_texts(&lowercase_each(&params.protocol_categories));
    RawQueryParams { keywords, impact, tags, protocol_categories, min_quality: params.min_quality }
}

// ---------------------------------------------------------------------------
// JSON text of the parameters
// ---------------------------------------------------------------------------
/// The JSON strings of a list, separated by commas.
pub open spec fn json_items(items: Seq<Seq<char>>) -> Seq<char>
    decreases items.len(),
{
    if items.len() == 0 {
        seq![]
    } else if items.len() == 1 {
        json_string(items[0])
    } else {
        json_items(items.drop_last()) + seq![','] + json_string(items.last())
    }
}

/// A list of strings as a compact JSON array.
pub open spec fn json_list(items: Seq<Seq<char>>) -> Seq<char> {
    seq!['['] + json_items(items) + seq![']']
}

/// The decimal digit for `d` (`0..=9`).
pub open spec fn decimal_digit(d: int) -> char {
    (48 + d) as char
}

/// The decimal numeral of a byte, without leading zeros.
pub open spec fn decimal_u8(n: u8) -> Seq<char> {
    if n < 10 {
        seq![decimal_digit(n as int)]
    } else if n < 100 {
        seq![decimal_digit((n / 10) as int), decimal_digit((n % 10) as int)]
    } else {
        seq![
            decimal_digit((n / 100) as int),
            decimal_digit(((n / 10) % 10) as int),
            decimal_digit((n % 10) as int),
        ]
    }
}

/// An optional byte as JSON: `null` or its numeral.
pub open spec fn json_opt_u8(m: Option<u8>) -> Seq<char> {
    match m {
        Some(n) => decimal_u8(n),
        None => seq!['n', 'u', 'l', 'l'],
    }
}

/// Query parameters as a compact JSON object, fields in declaration order.
pub open spec fn params_json(p: ParamsModel) -> Seq<char> {
    "{\"keywords\":"@ + json_string(p.keywords) + ",\"impact\":"@ + json_list(p.impact)
        + ",\"tags\":"@ + json_list(p.tags) + ",\"protocol_categories\":"@ + json_list(
        p.protocol_categories,
    ) + ",\"min_quality\":"@ + json_opt_u8(p.min_quality) + "}"@
}

fn push_digit(s: &mut String, d: u8)
    requires
        d < 10,
    ensures
        final(s)@ == old(s)@.push(decimal_digit(d as int)),
{
    let c = (48u8 + d) as char;
    s.push(c);
}

/// Appends an optional byte as JSON.
fn append_opt_u8(s: &mut String, m: Option<u8>)
    ensures
        final(s)@ == old(s)@ + json_opt_u8(m),
{
    match m {
        Some(n) => {
            if n < 10 {
                push_digit(s, n);
            } else if n < 100 {
                push_digit(s, n / 10);
                push_digit(s, n % 10);
            } else {
                push_digit(s, n / 100);
                push_digit(s, (n / 10) % 10);
                push_digit(s, n % 10);
            }
        },
        None => {
            s.append("null");
            proof {
                reveal_strlit("null");
            }
        },
    }
    assert(final(s)@ =~= old(s)@ + json_opt_u8(m));
}

/// Appends a list of strings as a JSON array.
fn append_list(s: &mut String, items: &Vec<String>)
    ensures
        final(s)@ == old(s)@ + json_list(texts(*items)),
{
    let ghost start = s@;
    s.push('[');
    let mut i: usize = 0;
    while i < items.len()
        invariant
            i <= items.len(),
            s@ == start + seq!['['] + json_items(texts(*items).take(i as int)),
        decreases items.len() - i,
    {
        let ghost prefix = texts(*items).take(i as int);
        if i > 0 {
            s.push(',');
        }
        let q = to_json_string(items[i].as_str());
        s.append(q.as_str());
        proof {
            let next = texts(*items).take(i + 1);
            assert(next.drop_last() =~= prefix);
            assert(next.last() == items@[i as int]@);
            if i == 0 {
                assert(prefix.len() == 0);
                assert(json_items(prefix) =~= seq![]);
            }
        }
        i = i + 1;
    }
    s.push(']');
    proof {
        assert(texts(*items).take(items@.len() as int) =~= texts(*items));
    }
    assert(s@ =~= start + json_list(texts(*items)));
}

/// Writes query parameters as a compact JSON object (see [`params_json`]).
pub fn to_json(p: &RawQueryParams) -> (r: String)
    ensures
        r@ == params_json(p@),
{
    let mut s = String::from_str("{\"keywords\":");
    let kw = to_json_string(p.keywords.as_str());
    s.append(kw.as_str());
    s.append(",\"impact\":");
    append_list(&mut s, &p.impact);
    s.append(",\"tags\":");
    append_list(&mut s, &p.tags);
    s.append(",\"protocol_categories\":");
    append_list(&mut s, &p.protocol_categories);
    s.append(",\"min_quality\":");
    append_opt_u8(&mut s, p.min_quality);
    s.append("}");
    s
}

// ---------------------------------------------------------------------------
// Hexadecimal
// ---------------------------------------------------------------------------
/// The lowercase hexadecimal digit for `d` (`0..=15`).
pub open spec fn hex_digit(d: int) -> char {
    if d < 10 {
        (48 + d) as char
    } else {
        (87 + d) as char
    }
}

/// Bytes in lowercase hexadecimal, two digits per byte.
pub open spec fn hex(bytes: Seq<u8>) -> Seq<char> {
    Seq::new(
        2 * bytes.len(),
        |i: int|
            if i % 2 == 0 {
                hex_digit((bytes[i / 2] / 16) as int)
            } else {
                hex_digit((bytes[i / 2] % 16) as int)
            },
    )
}

fn push_hex_digit(s: &mut String, d: u8)
    requires
        d < 16,
    ensures
        final(s)@ == old(s)@.push(hex_digit(d as int)),
{
    let c = if d < 10 {
        (48u8 + d) as char
    } else {
        (87u8 + d) as char
    };
    s.push(c);
}

// ---------------------------------------------------------------------------
// Fingerprint
// ---------------------------------------------------------------------------
/// The fingerprint of query parameters: the first eight bytes of the SHA-256
/// digest of the JSON text of the normalized parameters, in hexadecimal.
pub open spec fn fingerprint_of(p: ParamsModel) -> Seq<char> {
    hex(sha256_utf8(params_json(normalized(p))).take(8))
}

/// Computes a deterministic fingerprint for a query.
///
/// Normalizes the inputs (case folded, then lists sorted) so that queries
/// equal up to case and order produce the same hash. Returns a
/// 16-character lowercase hexadecimal text (the first 8 bytes of SHA-256).
pub fn fingerprint(params: &RawQueryParams) -> (r: String)
    ensures
        r@ == fingerprint_of(params@),
        r@ == hex(sha256_utf8(params_json(normalized(params@))).take(8)),
        r@.len() == 16,
{
    let normalized = normalize(params);
    let json = to_json(&normalized);
    let digest = sha256_of_text(json.as_str());
    let ghost first = digest@.take(8);
    let mut s = String::new();
    let mut k: usize = 0;
    while k < 8
        invariant
            k <= 8,
            digest@.len() == 32,
            first == digest@.take(8),
            s@ =~= hex(first).take(2 * k),
        decreases 8 - k,
    {
        let b = digest[k];
        push_hex_digit(&mut s, b / 16);
        push_hex_digit(&mut s, b % 16);
        k = k + 1;
    }
    assert(s@ =~= hex(first));
    s
}

// ---------------------------------------------------------------------------
// Laws
// ---------------------------------------------------------------------------
/// Equivalent queries have equal fingerprints: parameters whose normalized
/// forms agree get the same fingerprint.
pub proof fn lemma_fingerprint_of_normalized(p: ParamsModel, q: ParamsModel)
    requires
        normalized(p) == normalized(q),
    ensures
        fingerprint_of(p) == fingerprint_of(q),
{
}

/// Queries equal up to case and order have the same fingerprint: same
/// keywords once lowercased and trimmed, same minimum quality, and lists
/// that hold the same texts (each as often) once impacts are uppercased and
/// tags and categories lowercased.
pub proof fn lemma_fingerprint_case_and_order_insensitive(p: ParamsModel, q: ParamsModel)
    requires
        trimmed(lowercase(p.keywords)) == trimmed(lowercase(q.keywords)),
        p.min_quality == q.min_quality,
        each(p.impact, |t: Seq<char>| uppercase(t)).to_multiset() == each(
            q.impact,
            |t: Seq<char>| uppercase(t),
        ).to_multiset(),
        each(p.tags, |t: Seq<char>| lowercase(t)).to_multiset() == each(
            q.tags,
            |t: Seq<char>| lowercase(t),
        ).to_multiset(),
        each(p.protocol_categories, |t: Seq<char>| lowercase(t)).to_multiset() == each(
            q.protocol_categories,
            |t: Seq<char>| lowercase(t),
        ).to_multiset(),
    ensures
        fingerprint_of(p) == fingerprint_of(q),
{
    crate::text::lemma_sorted_texts_permutation(
        each(p.impact, |t: Seq<char>| uppercase(t)),
        each(q.impact, |t: Seq<char>| uppercase(t)),
    );
    crate::text::lemma_sorted_texts_permutation(
        each(p.tags, |t: Seq<char>| lowercase(t)),
        each(q.tags, |t: Seq<char>| lowercase(t)),
    );
    crate::text::lemma_sorted_texts_permutation(
        each(p.protocol_categories, |t: Seq<char>| lowercase(t)),
        each(q.protocol_categories, |t: Seq<char>| lowercase(t)),
    );
    assert(normalized(p) == normalized(q));
}

/// Keywords that agree once lowercased and trimmed give the same
/// fingerprint (case and surrounding white space of keywords do not count).
pub proof fn lemma_fingerprint_keyword_case(p: ParamsModel, q: ParamsModel)
    requires
        trimmed(lowercase(p.keywords)) == trimmed(lowercase(q.keywords)),
        p.impact == q.impact,
        p.tags == q.tags,
        p.protocol_categories == q.protocol_categories,
        p.min_quality == q.min_quality,
    ensures
        fingerprint_of(p) == fingerprint_of(q),
{
    assert(normalized(p) == normalized(q));
}

/// A lowercase hexadecimal digit.
pub open spec fn is_hex_digit(c: char) -> bool {
    ('0' <= c && c <= '9') || ('a' <= c && c <= 'f')
}

/// A fingerprint is written in lowercase hexadecimal digits, two per byte.
pub proof fn lemma_fingerprint_hex(p: ParamsModel)
    ensures
        forall|i: int|
            0 <= i < fingerprint_of(p).len() ==> is_hex_digit(#[trigger] fingerprint_of(p)[i]),
        fingerprint_of(p).len() % 2 == 0,
{
    let bytes = sha256_utf8(params_json(normalized(p))).take(8);
    assert forall|i: int| 0 <= i < fingerprint_of(p).len() implies is_hex_digit(
        #[trigger] fingerprint_of(p)[i],
    ) by {
        let b = bytes[i / 2];
        let d = if i % 2 == 0 {
            (b / 16) as int
        } else {
            (b % 16) as int
        };
        assert(0 <= d < 16);
        assert(fingerprint_of(p)[i] == hex_digit(d));
    }
}

// ---------------------------------------------------------------------------
// The hashed text tells the tags
// ---------------------------------------------------------------------------
/// An escaped character is never a bare double quote at its start, and the
/// escapes of two characters that begin two equal texts are the same.
proof fn lemma_escape_prefix_free(c: char, d: char, t1: Seq<char>, t2: Seq<char>)
    requires
        json_escape(c) + t1 == json_escape(d) + t2,
    ensures
        c == d,
        t1 == t2,
{
    let a = json_escape(c);
    let b = json_escape(d);
    let w = a + t1;
    assert(w == b + t2);
    assert(w[0] == a[0] && w[0] == b[0]);
    if a.len() >= 2 {
        assert(w[1] == a[1]);
    }
    if b.len() >= 2 {
        assert(w[1] == b[1]);
    }
    if a.len() == 6 {
        assert(w[4] == a[4] && w[5] == a[5]);
    }
    if b.len() == 6 {
        assert(w[4] == b[4] && w[5] == b[5]);
    }
    assert(c == d);
    assert(t1 =~= w.skip(a.len() as int));
    assert(t2 =~= w.skip(b.len() as int));
}

/// The first character of an escape is never a double quote.
proof fn lemma_escape_start(c: char)
    ensures
        json_escape(c).len() >= 1,
        json_escape(c)[0] != '"',
{
}

/// Escaping a text escapes its first character, then the rest.
proof fn lemma_escaped_front(s: Seq<char>)
    requires
        s.len() > 0,
    ensures
        json_escaped(s) == json_escape(s[0]) + json_escaped(s.drop_first()),
    decreases s.len(),
{
    if s.len() == 1 {
        assert(s.drop_last() =~= Seq::<char>::empty());
        assert(s.drop_first() =~= Seq::<char>::empty());
        assert(json_escaped(s) =~= json_escape(s[0]) + json_escaped(s.drop_first()));
    } else {
        let d = s.drop_last();
        lemma_escaped_front(d);
        assert(d.drop_first() =~= s.drop_first().drop_last());
        assert(s.drop_first().last() == s.last());
        assert(json_escaped(s) =~= json_escape(s[0]) + json_escaped(s.drop_first()));
    }
}

/// An escaped text followed by a double quote ends where the quote is: the
/// text and what follows the quote are told apart.
proof fn lemma_escaped_closed(x: Seq<char>, y: Seq<char>, r1: Seq<char>, r2: Seq<char>)
    requires
        json_escaped(x) + seq!['"'] + r1 == json_escaped(y) + seq!['"'] + r2,
    ensures
        x == y,
        r1 == r2,
    decreases x.len(),
{
    let w = json_escaped(x) + seq!['"'] + r1;
    if x.len() == 0 {
        assert(json_escaped(x) =~= Seq::<char>::empty());
        assert(w[0] == '"');
        if y.len() > 0 {
            lemma_escaped_front(y);
            lemma_escape_start(y[0]);
            assert(w[0] == json_escape(y[0])[0]);
        }
        assert(json_escaped(y) =~= Seq::<char>::empty());
        assert(r1 =~= w.skip(1));
        assert(r2 =~= w.skip(1));
    } else if y.len() == 0 {
        assert(json_escaped(y) =~= Seq::<char>::empty());
        lemma_escaped_front(x);
        lemma_escape_start(x[0]);
        assert(w[0] == json_escape(x[0])[0]);
    } else {
        lemma_escaped_front(x);
        lemma_escaped_front(y);
        let t1 = json_escaped(x.drop_first()) + seq!['"'] + r1;
        let t2 = json_escaped(y.drop_first()) + seq!['"'] + r2;
        assert(w =~= json_escape(x[0]) + t1);
        assert(w =~= json_escape(y[0]) + t2);
        lemma_escape_prefix_free(x[0], y[0], t1, t2);
        lemma_escaped_closed(x.drop_first(), y.drop_first(), r1, r2);
        assert(x =~= seq![x[0]] + x.drop_first());
        assert(y =~= seq![y[0]] + y.drop_first());
    }
}

/// The JSON strings of a list, separated by commas, from the front.
proof fn lemma_items_front(a: Seq<Seq<char>>)
    requires
        a.len() > 0,
    ensures
        json_items(a) == if a.len() == 1 {
            json_string(a[0])
        } else {
            json_string(a[0]) + seq![','] + json_items(a.drop_first())
        },
    decreases a.len(),
{
    if a.len() > 2 {
        let d = a.drop_last();
        lemma_items_front(d);
        let t = a.drop_first();
        assert(d.drop_first() =~= t.drop_last());
        assert(t.last() == a.last());
        assert(d[0] == a[0]);
        assert(json_items(t) == json_items(t.drop_last()) + seq![','] + json_string(t.last()));
        assert(json_items(a) == json_items(d) + seq![','] + json_string(a.last()));
        assert(json_items(a) =~= json_string(a[0]) + seq![','] + json_items(a.drop_first()));
    } else if a.len() == 2 {
        let t = a.drop_first();
        assert(a.drop_last().len() == 1 && a.drop_last()[0] == a[0]);
        assert(t.len() == 1 && t[0] == a.last());
        assert(json_items(a) == json_items(a.drop_last()) + seq![','] + json_string(a.last()));
        assert(json_items(a) =~= json_string(a[0]) + seq![','] + json_items(a.drop_first()));
    }
}

/// Lists of texts with the same JSON items are the same list.
proof fn lemma_items_injective(a: Seq<Seq<char>>, b: Seq<Seq<char>>)
    requires
        json_items(a) == json_items(b),
    ensures
        a == b,
    decreases a.len(),
{
    if a.len() == 0 {
        if b.len() > 0 {
            lemma_items_front(b);
            assert(json_items(b).len() > 0);
        }
        assert(a =~= b);
    } else if b.len() == 0 {
        lemma_items_front(a);
        assert(json_items(a).len() > 0);
    } else {
        lemma_items_front(a);
        lemma_items_front(b);
        let ra = if a.len() == 1 {
            Seq::<char>::empty()
        } else {
            seq![','] + json_items(a.drop_first())
        };
        let rb = if b.len() == 1 {
            Seq::<char>::empty()
        } else {
            seq![','] + json_items(b.drop_first())
        };
        let w = json_items(a);
        assert(w =~= seq!['"'] + (json_escaped(a[0]) + seq!['"'] + ra));
        assert(w =~= seq!['"'] + (json_escaped(b[0]) + seq!['"'] + rb));
        assert(json_escaped(a[0]) + seq!['"'] + ra =~= w.skip(1));
        assert(json_escaped(b[0]) + seq!['"'] + rb =~= w.skip(1));
        lemma_escaped_closed(a[0], b[0], ra, rb);
        if a.len() > 1 && b.len() > 1 {
            assert(json_items(a.drop_first()) =~= ra.skip(1));
            assert(json_items(b.drop_first()) =~= rb.skip(1));
            lemma_items_injective(a.drop_first(), b.drop_first());
        } else if a.len() > 1 || b.len() > 1 {
            assert(ra.len() != rb.len());
        }
        assert(a =~= seq![a[0]] + a.drop_first());
        assert(b =~= seq![b[0]] + b.drop_first());
    }
}

/// The text that is hashed for a fingerprint tells the normalized tags:
/// parameters that agree in everything but their normalized tags are
/// written as different JSON texts.
pub proof fn lemma_fingerprint_text_tells_tags(p: ParamsModel, q: ParamsModel)
    requires
        normalized(p).keywords == normalized(q).keywords,
        normalized(p).impact == normalized(q).impact,
        normalized(p).protocol_categories == normalized(q).protocol_categories,
        normalized(p).min_quality == normalized(q).min_quality,
        normalized(p).tags != normalized(q).tags,
    ensures
        params_json(normalized(p)) != params_json(normalized(q)),
{
    let a = normalized(p);
    let b = normalized(q);
    let pre = "{\"keywords\":"@ + json_string(a.keywords) + ",\"impact\":"@ + json_list(a.impact)
        + ",\"tags\":"@;
    let suf = ",\"protocol_categories\":"@ + json_list(a.protocol_categories) + ",\"min_quality\":"@
        + json_opt_u8(a.min_quality) + "}"@;
    let ja = params_json(a);
    let jb = params_json(b);
    assert(ja =~= pre + json_list(a.tags) + suf);
    assert(jb =~= pre + json_list(b.tags) + suf);
    if ja == jb {
        let la = json_list(a.tags);
        let lb = json_list(b.tags);
        assert(la.len() == lb.len());
        assert(la =~= ja.subrange(pre.len() as int, (pre.len() + la.len()) as int));
        assert(lb =~= jb.subrange(pre.len() as int, (pre.len() + lb.len()) as int));
        assert(json_items(a.tags) =~= la.subrange(1, la.len() - 1));
        assert(json_items(b.tags) =~= lb.subrange(1, lb.len() - 1));
        lemma_items_injective(a.tags, b.tags);
    }
}

/// Normalization keeps every tag, category and impact (each as often),
/// case-folded, in sorted order; and keeps the minimum quality.
pub proof fn lemma_normalized_lists(p: ParamsModel)
    ensures
        normalized(p).tags.to_multiset() == each(p.tags, |t: Seq<char>| lowercase(t)).to_multiset(),
        normalized(p).protocol_categories.to_multiset() == each(
            p.protocol_categories,
            |t: Seq<char>| lowercase(t),
        ).to_multiset(),
        normalized(p).impact.to_multiset() == each(p.impact, |t: Seq<char>| uppercase(t)).to_multiset(),
        vstd::relations::sorted_by(normalized(p).tags, crate::text::text_order()),
        vstd::relations::sorted_by(normalized(p).protocol_categories, crate::text::text_order()),
        vstd::relations::sorted_by(normalized(p).impact, crate::text::text_order()),
        normalized(p).keywords == trimmed(lowercase(p.keywords)),
        normalized(p).min_quality == p.min_quality,
{
    crate::text::lemma_text_order_total();
    each(p.tags, |t: Seq<char>| lowercase(t)).lemma_sort_by_ensures(crate::text::text_order());
    each(p.protocol_categories, |t: Seq<char>| lowercase(t)).lemma_sort_by_ensures(
        crate::text::text_order(),
    );
    each(p.impact, |t: Seq<char>| uppercase(t)).lemma_sort_by_ensures(crate::text::text_order());
}

} // verus!
