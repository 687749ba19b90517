//! Operations on texts: case mapping, trimming, substring search, ASCII
//! case-insensitive comparison, and the lexicographic order of texts.
use vstd::prelude::*;
use vstd::relations::{sorted_by, total_ordering};
use vstd::string::StringExecFns;

verus! {

broadcast use vstd::seq_lib::group_to_multiset_ensures;

/// `String::push` appends one character.
pub assume_specification[ String::push ](s: &mut String, ch: char)
    ensures
        final(s)@ == old(s)@.push(ch),
;

// ---------------------------------------------------------------------------
// Unicode case mapping and trimming (std)
// ---------------------------------------------------------------------------
/// The text that `str::to_lowercase` gives for a text.
pub uninterp spec fn lowercase(s: Seq<char>) -> Seq<char>;

/// The text that `str::to_uppercase` gives for a text.
pub uninterp spec fn uppercase(s: Seq<char>) -> Seq<char>;

/// The text that `str::trim` gives for a text.
pub uninterp spec fn trimmed(s: Seq<char>) -> Seq<char>;

/// A text of ASCII characters only.
pub open spec fn is_ascii_text(s: Seq<char>) -> bool {
    forall|i: int| 0 <= i < s.len() ==> (#[trigger] s[i] as int) < 128
}

/// The ASCII lowercase of a character: `A`..=`Z` become `a`..=`z`.
pub open spec fn ascii_lower(c: char) -> char {
    if 'A' <= c && c <= 'Z' {
        ((c as int) + 32) as char
    } else {
        c
    }
}

/// The ASCII uppercase of a character: `a`..=`z` become `A`..=`Z`.
pub open spec fn ascii_upper(c: char) -> char {
    if 'a' <= c && c <= 'z' {
        ((c as int) - 32) as char
    } else {
        c
    }
}

/// The lowercase of a text: the ASCII mapping for an ASCII text, else
/// [`lowercase`].
pub open spec fn lowered(s: Seq<char>) -> Seq<char> {
    if is_ascii_text(s) {
        s.map_values(|c: char| ascii_lower(c))
    } else {
        lowercase(s)
    }
}

/// Calls `str::to_lowercase`: the Unicode lowercase mapping of each
/// character. The result is named [`lowercase`] of the argument; of the
/// Unicode mapping only its ASCII part is stated: an ASCII text is mapped
/// character by character, `A`..=`Z` to `a`..=`z`.
#[verifier::external_body]
pub fn to_lowercase(s: &str) -> (r: String)
    ensures
        r@ == lowercase(s@),
        is_ascii_text(s@) ==> r@ == s@.map_values(|c: char| ascii_lower(c)),
{
    s.to_lowercase()
}

/// Calls `str::to_uppercase`: the Unicode uppercase mapping of each
/// character. The result is named [`uppercase`] of the argument; of the
/// Unicode mapping only its ASCII part is stated: an ASCII text is mapped
/// character by character, `a`..=`z` to `A`..=`Z`.
#[verifier::external_body]
pub fn to_uppercase(s: &str) -> (r: String)
    ensures
        r@ == uppercase(s@),
        is_ascii_text(s@) ==> r@ == s@.map_values(|c: char| ascii_upper(c)),
{
    s.to_uppercase()
}

/// Calls `str::trim`: the text without leading and trailing Unicode white
/// space. The result is named [`trimmed`] of the argument.
#[verifier::external_body]
pub fn trim(s: &str) -> (r: String)
    ensures
        r@ == trimmed(s@),
{
    s.trim().to_string()
}

/// The text of the path that `std::path::Path::join` makes of a base path
/// and a further part.
pub uninterp spec fn joined_path(base: Seq<char>, part: Seq<char>) -> Seq<char>;

/// Calls `std::path::Path::join` on two paths given as texts, and gives the
/// joined path as a text. The result is named [`joined_path`] of the
/// arguments. A path joined from two texts is valid UTF-8, so converting it
/// back to a text loses nothing.
#[verifier::external_body]
pub fn join_path(base: &str, part: &str) -> (r: String)
    ensures
        r@ == joined_path(base@, part@),
{
    std::path::Path::new(base).join(part).to_string_lossy().into_owned()
}

// ---------------------------------------------------------------------------
// Building texts
// ---------------------------------------------------------------------------
/// A new text from its characters.
pub fn text_from_chars(cs: &Vec<char>) -> (r: String)
    ensures
        r@ == cs@,
{
    let mut r = String::new();
    let mut i: usize = 0;
    while i < cs.len()
        invariant
            i <= cs.len(),
            r@ == cs@.take(i as int),
        decreases cs.len() - i,
    {
        r.push(cs[i]);
        proof {
            assert(cs@.take(i + 1) =~= cs@.take(i as int).push(cs@[i as int]));
        }
        i = i + 1;
    }
    proof {
        assert(cs@.take(cs@.len() as int) =~= cs@);
    }
    r
}

/// The characters of a text.
pub fn chars_of(s: &str) -> (v: Vec<char>)
    ensures
        v@ == s@,
{
    let mut v: Vec<char> = Vec::new();
    for c in it: s.chars()
        invariant
            it.seq() == s@,
            v@ == it.seq().take(it.index() as int),
    {
        v.push(c);
    }
    v
}

/// Whether two texts are equal.
pub fn same_text(a: &str, b: &str) -> (r: bool)
    ensures
        r == (a@ == b@),
{
    let x = chars_of(a);
    let y = chars_of(b);
    if x.len() != y.len() {
        return false;
    }
    let mut i: usize = 0;
    while i < x.len()
        invariant
            x@ == a@,
            y@ == b@,
            x@.len() == y@.len(),
            i <= x@.len(),
            forall|k: int| 0 <= k < i ==> x@[k] == y@[k],
        decreases x@.len() - i,
    {
        if x[i] != y[i] {
            return false;
        }
        i = i + 1;
    }
    assert(x@ =~= y@);
    true
}

/// `a` followed by `b`.
pub fn concat_texts(a: &str, b: &str) -> (r: String)
    ensures
        r@ == a@ + b@,
{
    let mut r = String::from_str(a);
    r.append(b);
    r
}

/// The text with every occurrence of `from` replaced by `to`.
pub open spec fn replaced(s: Seq<char>, from: char, to: char) -> Seq<char> {
    s.map_values(|c: char| if c == from { to } else { c })
}

/// Replaces every occurrence of the character `from` by `to`.
pub fn replace_char(s: &str, from: char, to: char) -> (r: String)
    ensures
        r@ == replaced(s@, from, to),
{
    let cs = chars_of(s);
    let mut out: Vec<char> = Vec::new();
    let mut i: usize = 0;
    while i < cs.len()
        invariant
            i <= cs.len(),
            cs@ == s@,
            out@ =~= replaced(s@, from, to).take(i as int),
        decreases cs.len() - i,
    {
        if cs[i] == from {
            out.push(to);
        } else {
            out.push(cs[i]);
        }
        i = i + 1;
    }
    text_from_chars(&out)
}

// ---------------------------------------------------------------------------
// Searching
// ---------------------------------------------------------------------------
/// `needle` occurs in `hay` at position `i`.
pub open spec fn occurs_at(needle: Seq<char>, hay: Seq<char>, i: int) -> bool {
    0 <= i && i + needle.len() <= hay.len() && hay.subrange(i, i + needle.len()) == needle
}

/// `needle` occurs somewhere in `hay` (the empty text occurs in every text).
pub open spec fn is_substring(needle: Seq<char>, hay: Seq<char>) -> bool {
    exists|i: int| #[trigger] occurs_at(needle, hay, i)
}

/// Whether `needle` occurs at position `i` of `hay`.
fn matches_at(hay: &Vec<char>, needle: &Vec<char>, i: usize) -> (r: bool)
    requires
        i + needle@.len() <= hay@.len(),
    ensures
        r == occurs_at(needle@, hay@, i as int),
{
    let mut j: usize = 0;
    let hl = hay.len();
    while j < needle.len()
        invariant
            hl == hay@.len(),
            i + needle@.len() <= hay@.len(),
            j <= needle@.len(),
            forall|k: int| 0 <= k < j ==> hay@[i + k] == needle@[k],
        decreases needle@.len() - j,
    {
        if hay[i + j] != needle[j] {
            proof {
                assert(hay@.subrange(i as int, i + needle@.len())[j as int] != needle@[j as int]);
            }
            return false;
        }
        j = j + 1;
    }
    proof {
        assert(hay@.subrange(i as int, i + needle@.len()) =~= needle@);
    }
    true
}

/// Whether `needle` occurs in `hay` (`str::contains` with a text pattern).
pub fn contains(hay: &str, needle: &str) -> (r: bool)
    ensures
        r == is_substring(needle@, hay@),
{
    let h = chars_of(hay);
    let n = chars_of(needle);
    if n.len() > h.len() {
        proof {
            assert forall|i: int| !occurs_at(needle@, hay@, i) by {}
        }
        return false;
    }
    let last: usize = h.len() - n.len();
    let mut i: usize = 0;
    while i < last
        invariant
            h@ == hay@,
            n@ == needle@,
            last == h@.len() - n@.len(),
            i <= last,
            forall|k: int| 0 <= k < i ==> !occurs_at(needle@, hay@, k),
        decreases last - i,
    {
        if matches_at(&h, &n, i) {
            assert(occurs_at(needle@, hay@, i as int));
            return true;
        }
        i = i + 1;
    }
    let r = matches_at(&h, &n, last);
    proof {
        if r {
            assert(occurs_at(needle@, hay@, last as int));
        } else {
            assert forall|k: int| !occurs_at(needle@, hay@, k) by {
                if 0 <= k < i {
                }
            }
        }
    }
    r
}

/// `prefix` begins `s`.
pub open spec fn has_prefix(s: Seq<char>, prefix: Seq<char>) -> bool {
    prefix.len() <= s.len() && s.subrange(0, prefix.len() as int) == prefix
}

/// Whether `s` begins with `prefix` (`str::starts_with` with a text pattern).
pub fn starts_with(s: &str, prefix: &str) -> (r: bool)
    ensures
        r == has_prefix(s@, prefix@),
{
    let h = chars_of(s);
    let p = chars_of(prefix);
    if p.len() > h.len() {
        return false;
    }
    let r = matches_at(&h, &p, 0);
    proof {
        assert(occurs_at(p@, h@, 0) == has_prefix(s@, prefix@));
    }
    r
}

// ---------------------------------------------------------------------------
// ASCII case-insensitive equality
// ---------------------------------------------------------------------------
/// The code of a character with ASCII capitals folded to small letters.
pub open spec fn ascii_fold(c: char) -> int {
    if 65 <= (c as u32) <= 90 {
        (c as int) + 32
    } else {
        c as int
    }
}

/// Two texts are equal when ASCII letters are compared without case
/// (`str::eq_ignore_ascii_case`).
pub open spec fn eq_ascii_fold(a: Seq<char>, b: Seq<char>) -> bool {
    a.len() == b.len() && forall|i: int| 0 <= i < a.len() ==> ascii_fold(#[trigger] a[i]) == ascii_fold(b[i])
}

fn fold_char(c: char) -> (r: u32)
    ensures
        r == ascii_fold(c),
{
    let v: u32 = c as u32;
    if 65 <= v && v <= 90 {
        v + 32
    } else {
        v
    }
}

/// Whether two texts are equal up to the case of ASCII letters.
pub fn eq_ignore_ascii_case(a: &str, b: &str) -> (r: bool)
    ensures
        r == eq_ascii_fold(a@, b@),
{
    let x = chars_of(a);
    let y = chars_of(b);
    if x.len() != y.len() {
        return false;
    }
    let mut i: usize = 0;
    while i < x.len()
        invariant
            x@ == a@,
            y@ == b@,
            x@.len() == y@.len(),
            i <= x@.len(),
            forall|k: int| 0 <= k < i ==> ascii_fold(#[trigger] x@[k]) == ascii_fold(y@[k]),
        decreases x@.len() - i,
    {
        if fold_char(x[i]) != fold_char(y[i]) {
            return false;
        }
        i = i + 1;
    }
    true
}

// ---------------------------------------------------------------------------
// Lexicographic order
// ---------------------------------------------------------------------------
/// `a` comes before or equals `b` in the lexicographic order of character
/// codes (the order of `String`, which compares UTF-8 bytes the same way).
pub open spec fn text_leq(a: Seq<char>, b: Seq<char>) -> bool
    decreases a.len(),
{
    if a.len() == 0 {
        true
    } else if b.len() == 0 {
        false
    } else if a[0] != b[0] {
        (a[0] as int) < (b[0] as int)
    } else {
        text_leq(a.drop_first(), b.drop_first())
    }
}

/// The lexicographic order of texts as a relation.
pub open spec fn text_order() -> spec_fn(Seq<char>, Seq<char>) -> bool {
    |a: Seq<char>, b: Seq<char>| text_leq(a, b)
}

proof fn lemma_text_leq_reflexive(a: Seq<char>)
    ensures
        text_leq(a, a),
    decreases a.len(),
{
    if a.len() > 0 {
        lemma_text_leq_reflexive(a.drop_first());
    }
}

proof fn lemma_text_leq_antisymmetric(a: Seq<char>, b: Seq<char>)
    requires
        text_leq(a, b),
        text_leq(b, a),
    ensures
        a == b,
    decreases a.len(),
{
    if a.len() > 0 && b.len() > 0 && a[0] == b[0] {
        lemma_text_leq_antisymmetric(a.drop_first(), b.drop_first());
        assert(a =~= seq![a[0]] + a.drop_first());
        assert(b =~= seq![b[0]] + b.drop_first());
    }
}

proof fn lemma_text_leq_transitive(a: Seq<char>, b: Seq<char>, c: Seq<char>)
    requires
        text_leq(a, b),
        text_leq(b, c),
    ensures
        text_leq(a, c),
    decreases a.len(),
{
    if a.len() > 0 && b.len() > 0 && c.len() > 0 && a[0] == b[0] && b[0] == c[0] {
        lemma_text_leq_transitive(a.drop_first(), b.drop_first(), c.drop_first());
    }
}

proof fn lemma_text_leq_total(a: Seq<char>, b: Seq<char>)
    ensures
        text_leq(a, b) || text_leq(b, a),
    decreases a.len(),
{
    if a.len() > 0 && b.len() > 0 && a[0] == b[0] {
        lemma_text_leq_total(a.drop_first(), b.drop_first());
    }
}

/// The lexicographic order of texts is a total order.
pub proof fn lemma_text_order_total()
    ensures
        total_ordering(text_order()),
{
    assert forall|a: Seq<char>| #[trigger] text_order()(a, a) by {
        lemma_text_leq_reflexive(a);
    }
    assert forall|a: Seq<char>, b: Seq<char>|
        #[trigger] text_order()(a, b) && #[trigger] text_order()(b, a) implies a == b by {
        lemma_text_leq_antisymmetric(a, b);
    }
    assert forall|a: Seq<char>, b: Seq<char>, c: Seq<char>|
        #[trigger] text_order()(a, b) && #[trigger] text_order()(b, c) implies text_order()(a, c) by {
        lemma_text_leq_transitive(a, b, c);
    }
    assert forall|a: Seq<char>, b: Seq<char>|
        #[trigger] text_order()(a, b) || #[trigger] text_order()(b, a) by {
        lemma_text_leq_total(a, b);
    }
}

/// Whether `a` comes before or equals `b` in the lexicographic order.
pub fn text_le(a: &str, b: &str) -> (r: bool)
    ensures
        r == text_leq(a@, b@),
{
    let x = chars_of(a);
    let y = chars_of(b);
    let mut i: usize = 0;
    proof {
        assert(a@.skip(0) =~= a@);
        assert(b@.skip(0) =~= b@);
    }
    while i < x.len() && i < y.len() && x[i] == y[i]
        invariant
            x@ == a@,
            y@ == b@,
            i <= x@.len(),
            i <= y@.len(),
            text_leq(a@, b@) == text_leq(a@.skip(i as int), b@.skip(i as int)),
        decreases x@.len() - i,
    {
        proof {
            assert(a@.skip(i as int).drop_first() =~= a@.skip(i + 1));
            assert(b@.skip(i as int).drop_first() =~= b@.skip(i + 1));
        }
        i = i + 1;
    }
    if i == x.len() {
        true
    } else if i == y.len() {
        false
    } else {
        proof {
            assert(a@.skip(i as int)[0] == x@[i as int]);
            assert(b@.skip(i as int)[0] == y@[i as int]);
        }
        x[i] < y[i]
    }
}

/// The texts of `s` in lexicographic order.
pub open spec fn sorted_texts(s: Seq<Seq<char>>) -> Seq<Seq<char>> {
    s.sort_by(text_order())
}

/// Sorts texts in lexicographic order (as `Vec::<String>::sort` does).
pub fn sort_texts(v: &Vec<String>) -> (r: Vec<String>)
    ensures
        crate::types::texts(r) == sorted_texts(crate::types::texts(*v)),
{
    let ghost input = crate::types::texts(*v);
    let mut r: Vec<String> = Vec::new();
    let mut i: usize = 0;
    proof {
        lemma_text_order_total();
    }
    while i < v.len()
        invariant
            i <= v.len(),
            input == crate::types::texts(*v),
            total_ordering(text_order()),
            sorted_by(crate::types::texts(r), text_order()),
            crate::types::texts(r).to_multiset() == input.take(i as int).to_multiset(),
        decreases v.len() - i,
    {
        let s = v[i].clone();
        let mut p: usize = 0;
        while p < r.len() && text_le(r[p].as_str(), s.as_str())
            invariant
                p <= r.len(),
                s@ == v@[i as int]@,
                forall|k: int| 0 <= k < p ==> text_leq(#[trigger] r@[k]@, s@),
            decreases r.len() - p,
        {
            p = p + 1;
        }
        let ghost before = crate::types::texts(r);
        proof {
            if p < r.len() {
                lemma_text_leq_total(s@, r@[p as int]@);
            }
        }
        r.insert(p, s);
        proof {
            let after = crate::types::texts(r);
            assert(after =~= before.insert(p as int, v@[i as int]@));
            assert(input.take(i + 1) =~= input.take(i as int).push(input[i as int]));
            assert forall|a: int, b: int| 0 <= a < b < after.len() implies #[trigger] text_order()(
                after[a],
                after[b],
            ) by {
                if b < p {
                    assert(after[a] == before[a] && after[b] == before[b]);
                } else if b == p {
                    assert(after[a] == before[a]);
                } else if a == p {
                    assert(after[b] == before[b - 1]);
                    if b - 1 > p {
                        assert(text_order()(before[p as int], before[b - 1]));
                        lemma_text_leq_transitive(s@, before[p as int], before[b - 1]);
                    }
                } else if a < p {
                    assert(after[a] == before[a] && after[b] == before[b - 1]);
                } else {
                    assert(after[a] == before[a - 1] && after[b] == before[b - 1]);
                }
            }
        }
        i = i + 1;
    }
    proof {
        assert(input.take(v@.len() as int) =~= input);
        input.lemma_sort_by_ensures(text_order());
        vstd::seq_lib::lemma_sorted_unique(crate::types::texts(r), input.sort_by(text_order()), text_order());
    }
    r
}

/// Sorting depends only on which texts there are, not on their order.
pub proof fn lemma_sorted_texts_permutation(a: Seq<Seq<char>>, b: Seq<Seq<char>>)
    requires
        a.to_multiset() == b.to_multiset(),
    ensures
        sorted_texts(a) == sorted_texts(b),
{
    lemma_text_order_total();
    a.lemma_sort_by_ensures(text_order());
    b.lemma_sort_by_ensures(text_order());
    vstd::seq_lib::lemma_sorted_unique(sorted_texts(a), sorted_texts(b), text_order());
}

} // verus!
