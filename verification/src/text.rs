//! Facts and helpers about text: the byte order that `String` is sorted by,
//! substring search, and joining.
use vstd::prelude::*;
use vstd::utf8::encode_utf8;

verus! {

/// The text of each string in a sequence.
pub open spec fn texts(strings: Seq<String>) -> Seq<Seq<char>> {
    Seq::new(strings.len(), |i: int| strings[i]@)
}

/// `a` and `b` agree before position `k`, and `a` is the smaller one there: it
/// either ends at `k` while `b` goes on, or holds the smaller byte.
pub open spec fn less_at(a: Seq<u8>, b: Seq<u8>, k: int) -> bool {
    &&& 0 <= k <= a.len()
    &&& k < b.len()
    &&& forall|i: int| 0 <= i < k ==> a[i] == b[i]
    &&& k < a.len() ==> a[k] < b[k]
}

/// Lexicographic order on byte sequences.
pub open spec fn bytes_less(a: Seq<u8>, b: Seq<u8>) -> bool {
    exists|k: int| less_at(a, b, k)
}

/// The order of strings: lexicographic by the bytes of their UTF-8 encoding.
pub open spec fn text_less(a: Seq<char>, b: Seq<char>) -> bool {
    bytes_less(encode_utf8(a), encode_utf8(b))
}

/// `needle` occurs in `haystack` as an unbroken run.
pub open spec fn occurs_in(needle: Seq<char>, haystack: Seq<char>) -> bool {
    exists|i: int| occurs_at(needle, haystack, i)
}

/// `needle` occurs in `haystack` starting at position `i`.
pub open spec fn occurs_at(needle: Seq<char>, haystack: Seq<char>, i: int) -> bool {
    &&& 0 <= i
    &&& i + needle.len() <= haystack.len()
    &&& haystack.subrange(i, i + needle.len()) == needle
}

/// The parts in order, with `separator` between each two neighbours.
pub open spec fn joined(parts: Seq<Seq<char>>, separator: Seq<char>) -> Seq<char>
    decreases parts.len(),
{
    if parts.len() == 0 {
        Seq::empty()
    } else if parts.len() == 1 {
        parts[0]
    } else {
        joined(parts.drop_last(), separator) + separator + parts.last()
    }
}

/// Each text is that of the string at its place.
pub proof fn texts_of_strings(strings: Seq<String>)
    ensures
        texts(strings).len() == strings.len(),
        forall|i: int| 0 <= i < strings.len() ==> #[trigger] texts(strings)[i] == strings[i]@,
{
}

/// A text occurs in another exactly if the other is made of something, the text, and
/// something more.
pub proof fn occurrence_splits(needle: Seq<char>, haystack: Seq<char>)
    ensures
        occurs_in(needle, haystack) <==> exists|before: Seq<char>, after: Seq<char>|
            haystack == #[trigger] (before + needle + after),
{
    if occurs_in(needle, haystack) {
        let i = choose|i: int| occurs_at(needle, haystack, i);
        let before = haystack.take(i);
        let after = haystack.skip(i + needle.len());
        assert(haystack =~= before + needle + after);
    }
    if exists|before: Seq<char>, after: Seq<char>|
        haystack == #[trigger] (before + needle + after) {
        let (before, after) = choose|before: Seq<char>, after: Seq<char>|
            haystack == #[trigger] (before + needle + after);
        let i = before.len() as int;
        assert(haystack.subrange(i, i + needle.len()) =~= needle);
        assert(occurs_at(needle, haystack, i));
    }
}

/// Joining nothing gives the empty text, and joining one text gives that text.
pub proof fn joined_none_or_one(part: Seq<char>, separator: Seq<char>)
    ensures
        joined(Seq::empty(), separator).len() == 0,
        joined(seq![part], separator) == part,
{
}

/// Joining two lists in one is joining each, with the separator between the results.
pub proof fn joined_lists(a: Seq<Seq<char>>, b: Seq<Seq<char>>, separator: Seq<char>)
    requires
        a.len() > 0,
        b.len() > 0,
    ensures
        joined(a + b, separator) == joined(a, separator) + separator + joined(b, separator),
    decreases b.len(),
{
    assert((a + b).drop_last() =~= a + b.drop_last());
    if b.len() > 1 {
        joined_lists(a, b.drop_last(), separator);
    }
}

/// Where the encodings of two texts first differ, the smaller byte decides which text
/// comes first.
pub proof fn smaller_byte_comes_first(
    a: Seq<char>,
    b: Seq<char>,
    common: Seq<u8>,
    x: u8,
    y: u8,
    rest_a: Seq<u8>,
    rest_b: Seq<u8>,
)
    requires
        encode_utf8(a) == common + seq![x] + rest_a,
        encode_utf8(b) == common + seq![y] + rest_b,
        x < y,
    ensures
        text_less(a, b),
        !text_less(b, a),
{
    assert(less_at(encode_utf8(a), encode_utf8(b), common.len() as int));
}

/// A text whose encoding another one continues comes before it.
pub proof fn beginning_comes_first(a: Seq<char>, b: Seq<char>, rest: Seq<u8>)
    requires
        encode_utf8(b) == encode_utf8(a) + rest,
        rest.len() > 0,
    ensures
        text_less(a, b),
        !text_less(b, a),
{
    assert(less_at(encode_utf8(a), encode_utf8(b), encode_utf8(a).len() as int));
}

/// No text comes before itself.
pub proof fn text_less_irreflexive(a: Seq<char>)
    ensures
        !text_less(a, a),
{
}

/// If `a` comes before `b` and `b` before `c`, then `a` comes before `c`.
pub proof fn text_less_transitive(a: Seq<char>, b: Seq<char>, c: Seq<char>)
    requires
        text_less(a, b),
        text_less(b, c),
    ensures
        text_less(a, c),
{
    let (x, y, z) = (encode_utf8(a), encode_utf8(b), encode_utf8(c));
    let j = choose|j: int| less_at(x, y, j);
    let k = choose|k: int| less_at(y, z, k);
    if j <= k {
        assert(less_at(x, z, j));
    } else {
        assert(less_at(x, z, k));
    }
}

/// Of two different texts, one comes before the other.
pub proof fn text_less_total(a: Seq<char>, b: Seq<char>)
    ensures
        a == b || text_less(a, b) || text_less(b, a),
{
    let (x, y) = (encode_utf8(a), encode_utf8(b));
    lemma_bytes_total(x, y, 0);
    if x == y {
        lemma_encoding_injective(a, b);
    }
}

proof fn lemma_bytes_total(a: Seq<u8>, b: Seq<u8>, k: int)
    requires
        0 <= k <= a.len(),
        k <= b.len(),
        forall|i: int| 0 <= i < k ==> a[i] == b[i],
    ensures
        a == b || bytes_less(a, b) || bytes_less(b, a),
    decreases a.len() - k,
{
    if k == a.len() && k == b.len() {
        assert(a =~= b);
    } else if k == a.len() {
        assert(less_at(a, b, k));
    } else if k == b.len() {
        assert(less_at(b, a, k));
    } else if a[k] < b[k] {
        assert(less_at(a, b, k));
    } else if b[k] < a[k] {
        assert(less_at(b, a, k));
    } else {
        lemma_bytes_total(a, b, k + 1);
    }
}

proof fn lemma_encoding_injective(a: Seq<char>, b: Seq<char>)
    requires
        encode_utf8(a) == encode_utf8(b),
    ensures
        a == b,
{
    vstd::utf8::encode_utf8_decode_utf8(a);
    vstd::utf8::encode_utf8_decode_utf8(b);
}

/// How one text stands to another.
#[derive(Clone, Copy, Debug, PartialEq, Eq, Structural)]
pub enum Order {
    Before,
    Same,
    After,
}

/// Places `a` relative to `b` in the order of strings.
pub fn compare_texts(a: &str, b: &str) -> (order: Order)
    ensures
        match order {
            Order::Before => text_less(a@, b@),
            Order::Same => a@ == b@,
            Order::After => text_less(b@, a@),
        },
        order is Same <==> a@ == b@,
{
    let x = a.as_bytes();
    let y = b.as_bytes();
    let mut k: usize = 0;
    while k < x.len() && k < y.len()
        invariant
            x@ == encode_utf8(a@),
            y@ == encode_utf8(b@),
            0 <= k <= x.len(),
            k <= y.len(),
            forall|i: int| 0 <= i < k ==> x[i] == y[i],
        decreases x.len() - k,
    {
        if x[k] < y[k] {
            assert(less_at(x@, y@, k as int));
            return Order::Before;
        }
        if y[k] < x[k] {
            assert(less_at(y@, x@, k as int));
            return Order::After;
        }
        k = k + 1;
    }
    if k < y.len() {
        assert(less_at(x@, y@, k as int));
        Order::Before
    } else if k < x.len() {
        assert(less_at(y@, x@, k as int));
        Order::After
    } else {
        assert(x@ =~= y@);
        proof {
            lemma_encoding_injective(a@, b@);
        }
        Order::Same
    }
}

/// The characters of `text`.
fn chars_of(text: &str) -> (chars: Vec<char>)
    ensures
        chars@ == text@,
{
    let mut chars: Vec<char> = Vec::new();
    for c in it: text.chars()
        invariant
            it.seq() == text@,
            chars@ == text@.take(it.index() as int),
    {
        chars.push(c);
    }
    chars
}

/// Whether `needle` occurs in `haystack`.
pub fn contains_text(haystack: &str, needle: &str) -> (found: bool)
    ensures
        found == occurs_in(needle@, haystack@),
{
    let hay = chars_of(haystack);
    let pat = chars_of(needle);
    if pat.len() > hay.len() {
        return false;
    }
    let last: usize = hay.len() - pat.len();
    let mut start: usize = 0;
    while start <= last
        invariant
            hay@ == haystack@,
            pat@ == needle@,
            last + pat.len() == hay.len(),
            forall|i: int| 0 <= i < start ==> !occurs_at(needle@, haystack@, i),
        decreases last + 1 - start,
    {
        let mut matched: usize = 0;
        while matched < pat.len() && hay[start + matched] == pat[matched]
            invariant
                hay@ == haystack@,
                pat@ == needle@,
                start <= last,
                last + pat.len() == hay.len(),
                0 <= matched <= pat.len(),
                forall|i: int| 0 <= i < matched ==> hay@[start + i] == pat@[i],
            decreases pat.len() - matched,
        {
            matched = matched + 1;
        }
        if matched == pat.len() {
            assert(haystack@.subrange(start as int, start + needle@.len()) =~= needle@);
            assert(occurs_at(needle@, haystack@, start as int));
            return true;
        }
        assert(!occurs_at(needle@, haystack@, start as int)) by {
            assert(haystack@.subrange(start as int, start + needle@.len())[matched as int]
                == hay@[start + matched]);
        }
        if start == last {
            return false;
        }
        start = start + 1;
    }
    false
}

} // verus!
