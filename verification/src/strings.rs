use vstd::prelude::*;

verus! {

/// What `str::to_lowercase` returns: the Unicode lowercase mapping of every
/// character of a string.
pub uninterp spec fn unicode_lowercase(s: Seq<char>) -> Seq<char>;

/// Whether every character of a text is ASCII.
pub open spec fn is_ascii_text(s: Seq<char>) -> bool {
    forall|i: int| 0 <= i < s.len() ==> (#[trigger] s[i] as u32) < 128
}

/// The ASCII lowercase of each character: `A`–`Z` become `a`–`z`, every
/// other character stays.
pub open spec fn ascii_lowered(s: Seq<char>) -> Seq<char> {
    Seq::new(
        s.len(),
        |i: int|
            if 'A' <= s[i] && s[i] <= 'Z' {
                ((s[i] as u32) + 32) as char
            } else {
                s[i]
            },
    )
}

/// Calls `str::to_lowercase`. The contract names its result, and states what
/// the Unicode lowercase mapping it applies gives for the empty text and for
/// ASCII text: nothing, and each letter `A`–`Z` as `a`–`z`.
#[verifier::external_body]
pub(crate) fn to_lowercase(text: &str) -> (lowered: String)
    ensures
        lowered@ == unicode_lowercase(text@),
        text@.len() == 0 ==> lowered@.len() == 0,
        is_ascii_text(text@) ==> lowered@ == ascii_lowered(text@),
{
    text.to_lowercase()
}

/// Appends a character to a string (`String::push`).
#[verifier::external_body]
pub(crate) fn push_char(s: &mut String, c: char)
    ensures
        final(s)@ == old(s)@.push(c),
{
    s.push(c);
}

/// The characters of a string, in order.
pub fn chars_of(text: &str) -> (chars: Vec<char>)
    ensures
        chars@ == text@,
{
    let mut chars: Vec<char> = Vec::new();
    for c in it: text.chars()
        invariant
            it.seq() == text@,
            chars@ == it.seq().take(it.index() as int),
    {
        chars.push(c);
        assert(chars@ =~= it.seq().take(it.index() as int + 1));
    }
    assert(chars@ =~= text@);
    chars
}

/// Whether `needle` occurs as a contiguous run inside `haystack` (an empty
/// needle occurs everywhere).
pub open spec fn contains_run(haystack: Seq<char>, needle: Seq<char>) -> bool {
    exists|start: int|
        0 <= start && start + needle.len() <= haystack.len() && #[trigger] haystack.subrange(
            start,
            start + needle.len(),
        ) == needle
}

/// Whether `needle` occurs in `haystack` at `start`.
fn occurs_at(haystack: &Vec<char>, needle: &Vec<char>, start: usize) -> (found: bool)
    requires
        start + needle@.len() <= haystack@.len(),
    ensures
        found == (haystack@.subrange(start as int, start + needle@.len()) == needle@),
{
    let mut i: usize = 0;
    while i < needle.len()
        invariant
            i <= needle@.len(),
            start + needle@.len() <= haystack@.len(),
            forall|j: int| 0 <= j < i ==> haystack@[start + j] == needle@[j],
        decreases needle@.len() - i,
    {
        let length = haystack.len();
        assert(start + i < length);
        let index = start + i;
        if haystack[index] != needle[i] {
            assert(haystack@.subrange(start as int, start + needle@.len())[i as int] != needle@[i as int]);
            return false;
        }
        i = i + 1;
    }
    assert(haystack@.subrange(start as int, start + needle@.len()) =~= needle@);
    true
}

/// `str::contains` on character sequences.
pub fn contains_chars(haystack: &Vec<char>, needle: &Vec<char>) -> (found: bool)
    ensures
        found == contains_run(haystack@, needle@),
{
    if needle.len() > haystack.len() {
        return false;
    }
    let last = haystack.len() - needle.len();
    let mut start: usize = 0;
    loop
        invariant
            start <= last,
            last + needle@.len() == haystack@.len(),
            forall|s: int|
                0 <= s < start ==> #[trigger] haystack@.subrange(s, s + needle@.len()) != needle@,
        decreases last - start,
    {
        if occurs_at(haystack, needle, start) {
            return true;
        }
        if start == last {
            return false;
        }
        start = start + 1;
    }
}

/// Lexicographic comparison of character sequences by code point, which is
/// also the byte order of their UTF-8 encodings (the order of `String`):
/// -1, 0 or 1.
pub open spec fn compare_text(a: Seq<char>, b: Seq<char>) -> int
    decreases a.len(),
{
    if a.len() == 0 {
        if b.len() == 0 {
            0
        } else {
            -1
        }
    } else if b.len() == 0 {
        1
    } else if a[0] == b[0] {
        compare_text(a.drop_first(), b.drop_first())
    } else if (a[0] as u32) < (b[0] as u32) {
        -1
    } else {
        1
    }
}

proof fn lemma_compare_text_suffix(a: Seq<char>, b: Seq<char>, i: int)
    requires
        0 <= i <= a.len(),
        i <= b.len(),
        forall|j: int| 0 <= j < i ==> a[j] == b[j],
    ensures
        compare_text(a, b) == compare_text(a.skip(i), b.skip(i)),
    decreases i,
{
    if i > 0 {
        assert(a[0] == b[0]);
        assert(a.drop_first().skip(i - 1) =~= a.skip(i));
        assert(b.drop_first().skip(i - 1) =~= b.skip(i));
        lemma_compare_text_suffix(a.drop_first(), b.drop_first(), i - 1);
    } else {
        assert(a.skip(0) =~= a);
        assert(b.skip(0) =~= b);
    }
}

/// Compares two character sequences as `String`'s `Ord` does.
pub fn compare_chars(a: &Vec<char>, b: &Vec<char>) -> (order: i8)
    ensures
        order == compare_text(a@, b@),
        -1 <= order <= 1,
{
    let mut i: usize = 0;
    while i < a.len() && i < b.len()
        invariant
            i <= a@.len(),
            i <= b@.len(),
            forall|j: int| 0 <= j < i ==> a@[j] == b@[j],
        decreases a@.len() - i,
    {
        if a[i] != b[i] {
            proof {
                lemma_compare_text_suffix(a@, b@, i as int);
            }
            if (a[i] as u32) < (b[i] as u32) {
                return -1;
            } else {
                return 1;
            }
        }
        i = i + 1;
    }
    proof {
        lemma_compare_text_suffix(a@, b@, i as int);
    }
    if i < a.len() {
        1
    } else if i < b.len() {
        -1
    } else {
        0
    }
}

proof fn lemma_distinct_code_points(x: char, y: char)
    requires
        x != y,
    ensures
        (x as u32) != (y as u32),
{
}

/// The lexicographic order on character sequences is a total order: it is
/// reflexive, antisymmetric and transitive.
pub proof fn lemma_compare_text_total_order(a: Seq<char>, b: Seq<char>, c: Seq<char>)
    ensures
        compare_text(a, a) == 0,
        compare_text(a, b) == -compare_text(b, a),
        compare_text(a, b) == 0 ==> a == b,
        compare_text(a, b) <= 0 && compare_text(b, c) <= 0 ==> compare_text(a, c) <= 0,
        compare_text(a, b) < 0 && compare_text(b, c) <= 0 ==> compare_text(a, c) < 0,
        compare_text(a, b) <= 0 && compare_text(b, c) < 0 ==> compare_text(a, c) < 0,
    decreases a.len(),
{
    if a.len() > 0 && b.len() > 0 && c.len() > 0 {
        lemma_compare_text_total_order(a.drop_first(), b.drop_first(), c.drop_first());
    } else if a.len() > 0 && b.len() > 0 {
        lemma_compare_text_total_order(a.drop_first(), b.drop_first(), a.drop_first());
    }
    if a.len() > 0 && b.len() > 0 && compare_text(a, b) == 0 {
        assert(a =~= seq![a[0]] + a.drop_first());
        assert(b =~= seq![b[0]] + b.drop_first());
    }
    if a.len() > 0 {
        lemma_compare_text_total_order(a.drop_first(), a.drop_first(), a.drop_first());
    }
    if a.len() > 0 && b.len() > 0 && a[0] != b[0] {
        lemma_distinct_code_points(a[0], b[0]);
    }
    if b.len() > 0 && c.len() > 0 && b[0] != c[0] {
        lemma_distinct_code_points(b[0], c[0]);
    }
    if a.len() > 0 && c.len() > 0 && a[0] != c[0] {
        lemma_distinct_code_points(a[0], c[0]);
    }
}

/// The decimal digit for a value below 10.
pub open spec fn digit_char(value: int) -> char {
    ('0' as int + value) as char
}

/// The decimal representation of a natural number, without leading zeros.
pub open spec fn decimal(n: nat) -> Seq<char>
    decreases n,
{
    if n < 10 {
        seq![digit_char(n as int)]
    } else {
        decimal(n / 10) + seq![digit_char((n % 10) as int)]
    }
}

/// Appends the decimal representation of `n` (as `format!("{n}")` writes
/// it) to `text`.
pub fn push_decimal(text: &mut String, n: u128)
    ensures
        final(text)@ == old(text)@ + decimal(n as nat),
    decreases n,
{
    if n >= 10 {
        push_decimal(text, n / 10);
    }
    let digit = (n % 10) as u8;
    push_char(text, (digit + 0x30) as char);
    assert(text@ =~= old(text)@ + decimal(n as nat));
}

} // verus!
